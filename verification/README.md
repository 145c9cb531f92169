# cewl

A custom word list generator: it spiders a site to a given depth and lists
the words it finds (with counts, word groups, email addresses and document
author metadata on request). `fab` reads author metadata from local files.

## Layout

- `src/` — the verified library (Verus).
  - `spider.rs` — the crawl as a state machine: which page comes next, and
    what an outcome of a fetch does to the frontier, the counts and the lists.
  - `tree.rs` — the frontier of pages with its depth limit.
  - `crawler.rs` — URL admission, option parsing for headers and proxies, and
    the fetchers' settings.
  - `fetcher.rs` — fetch outcomes and the fetchers' decisions on plain values.
  - `html.rs`, `scan.rs` — link extraction and the text pipeline of a page.
  - `words.rs`, `counts.rs`, `order.rs` — normalisation, counting, ranking and
    the report lines.
  - `email.rs`, `capture.rs`, `metadata.rs` — addresses, URL-structure words
    and document metadata.
  - `text.rs`, `urls.rs` — string helpers and parsed URLs.
- `app/` — the program around it: command line, HTTP and browser fetching,
  files, output.
- `tests/` — tests of the library on concrete values.
