//! The crawl as a state machine.
//!
//! The caller runs the loop: it asks `next_step` for the next page, fetches
//! it, hands the outcome to `handle_outcome`, saves a document when asked to
//! and feeds the names found in it back with `add_usernames`, and finally
//! takes the lists with `finish`. Every decision between those steps is made
//! here.
use vstd::prelude::*;
use indexmap::IndexMap;
use crate::cli::CewlArgs;
use crate::counts::{index_map_entries, counts_at_most, new_counts, entries_bump, entries_bump_all, bump_count, lemma_bump_bound, lemma_bump_all_bound};
use crate::crawler::{UrlFilter, CrawlResult, is_mailto_spec, is_binary_ext_spec, contains_string};
use crate::order::{tidy_list, strictly_sorted, nonblank};
use crate::fetcher::{FetchOutcome, binary_type};
use crate::html::{hrefs_spec, body_text_spec, strip_blocks_spec, meta_append_spec, alt_title_spec, html_entities_decoded, resolve_spec};
use crate::scan::{Pattern, CapturePattern, replace_all, captures_all};
use crate::capture::{path_components_spec, subdomain_spec, registrable_spec};
use crate::urls::{url_parse, url_parse_join, psl_domain, opt_view};
use crate::words::{normalized_text, counted_words, word_groups, lemma_counted_len};
use crate::email::emails_of_text;
use crate::text::{chars_of, string_of, lower_seq, lower_chars, starts_with, strings_view, str_eq, byte_len, byte_len_of, rfind_char};
use crate::tree::{Tree, TreeSpec, NodeSpec, new_node, opt_string_view, pop_spec, push_spec, push_fits, tree_empty, all_nodes, unvisited_count, lemma_pop_shrinks, depths_within_limit, lemma_pop_keeps_depths, lemma_push_respects_depth};

verus! {

broadcast use vstd::string::group_string_axioms;

/// The options that steer the crawl.
pub struct CrawlConfig {
    pub email: bool,
    pub meta: bool,
    /// Keep a document's own file name when saving it.
    pub keep: bool,
    pub capture_paths: bool,
    pub capture_subdomains: bool,
    pub capture_domain: bool,
    pub min_word_length: usize,
    pub max_word_length: Option<usize>,
    pub lowercase: bool,
    pub with_numbers: bool,
    pub convert_umlauts: bool,
    pub groups: i32,
    pub keep_js: bool,
    pub keep_css: bool,
    pub wordlist: bool,
    /// Stop after this many pages (0: no limit).
    pub max_pages: u64,
    /// A browser is running and renders the HTML pages.
    pub browser: bool,
    /// Digest authentication is in use (the browser cannot do it).
    pub digest: bool,
}

/// The authentication type, ASCII case aside, is `digest`.
pub open spec fn digest_auth(auth_type: Option<Seq<char>>) -> bool {
    match auth_type {
        Some(t) => lower_seq(t) == "digest"@,
        None => false,
    }
}

pub open spec fn config_spec(a: CewlArgs, browser: bool) -> CrawlConfig {
    CrawlConfig {
        email: a.email,
        meta: a.meta,
        keep: a.keep,
        capture_paths: a.capture_paths,
        capture_subdomains: a.capture_subdomains,
        capture_domain: a.capture_domain,
        min_word_length: a.min_word_length,
        max_word_length: a.max_word_length,
        lowercase: a.lowercase,
        with_numbers: a.with_numbers,
        convert_umlauts: a.convert_umlauts,
        groups: a.groups,
        keep_js: a.keep_js,
        keep_css: a.keep_css,
        wordlist: !a.no_words,
        max_pages: match a.max_pages {
            Some(m) => m,
            None => 0,
        },
        browser,
        digest: digest_auth(crate::urls::opt_view(a.auth_type)),
    }
}

impl CrawlConfig {
    /// The crawl settings of the options; `browser` tells whether a browser was launched.
    pub fn from_args(a: &CewlArgs, browser: bool) -> (c: Self)
        ensures
            c == config_spec(*a, browser),
    {
        let digest = match &a.auth_type {
            Some(t) => {
                let l = string_of(lower_chars(&chars_of(t.as_str())).as_slice());
                str_eq(l.as_str(), "digest")
            },
            None => false,
        };
        CrawlConfig {
            email: a.email,
            meta: a.meta,
            keep: a.keep,
            capture_paths: a.capture_paths,
            capture_subdomains: a.capture_subdomains,
            capture_domain: a.capture_domain,
            min_word_length: a.min_word_length,
            max_word_length: a.max_word_length,
            lowercase: a.lowercase,
            with_numbers: a.with_numbers,
            convert_umlauts: a.convert_umlauts,
            groups: a.groups,
            keep_js: a.keep_js,
            keep_css: a.keep_css,
            wordlist: a.wordlist_enabled(),
            max_pages: match a.max_pages {
                Some(m) => m,
                None => 0,
            },
            browser,
            digest,
        }
    }
}

/// The crawl's state.
pub struct Crawler {
    pub config: CrawlConfig,
    pub filter: UrlFilter,
    pub tree: Tree,
    /// The URLs handed out for fetching so far.
    pub seen: Vec<String>,
    pub words: IndexMap<String, u64>,
    pub groups: IndexMap<String, u64>,
    pub emails: Vec<String>,
    pub usernames: Vec<String>,
    pub pages_done: u64,
    /// How many counts were added so far: no count exceeds it.
    pub tally: u64,
}

/// The mathematical content of the crawl's state.
pub struct CrawlView {
    pub tree: TreeSpec,
    pub seen: Seq<Seq<char>>,
    pub words: Seq<(Seq<char>, u64)>,
    pub groups: Seq<(Seq<char>, u64)>,
    pub emails: Seq<Seq<char>>,
    pub usernames: Seq<Seq<char>>,
    pub pages_done: u64,
    pub tally: u64,
}

impl View for Crawler {
    type V = CrawlView;

    open spec fn view(&self) -> CrawlView {
        CrawlView {
            tree: self.tree@,
            seen: strings_view(self.seen@),
            words: index_map_entries(self.words),
            groups: index_map_entries(self.groups),
            emails: strings_view(self.emails@),
            usernames: strings_view(self.usernames@),
            pages_done: self.pages_done,
            tally: self.tally,
        }
    }
}

/// No count has passed the tally.
pub open spec fn counts_fit(s: CrawlView) -> bool {
    counts_at_most(s.words, s.tally as int) && counts_at_most(s.groups, s.tally as int)
}

/// `s` with every leading copy of a non-empty `p` removed (`str::trim_start_matches`).
pub open spec fn strip_all_prefix(s: Seq<char>, p: Seq<char>) -> Seq<char>
    decreases s.len(),
{
    if p.len() > 0 && starts_with(s, p) {
        strip_all_prefix(s.skip(p.len() as int), p)
    } else {
        s
    }
}

/// The address of a `mailto:` link.
pub open spec fn mailto_address(url: Seq<char>) -> Seq<char> {
    strip_all_prefix(url, "mailto:"@)
}

/// A `mailto:` link's address joins the emails when emails are collected and it is not empty.
pub open spec fn note_mailto(s: CrawlView, c: CrawlConfig, url: Seq<char>) -> CrawlView {
    if c.email && mailto_address(url).len() > 0 {
        CrawlView { emails: s.emails.push(mailto_address(url)), ..s }
    } else {
        s
    }
}

/// The crawl will not fetch another page.
pub open spec fn crawl_over(c: CrawlConfig, s: CrawlView) -> bool {
    ||| tree_empty(s.tree)
    ||| (c.max_pages > 0 && s.pages_done >= c.max_pages)
    ||| s.pages_done == u64::MAX
}

/// The page fetched next, as `(referrer, url)`, and the state after choosing it:
/// the frontier is popped until a URL comes that was not handed out before,
/// is not a `mailto:` link (whose address is noted) and passes the filter.
pub open spec fn next_spec(c: CrawlConfig, f: UrlFilter, s: CrawlView) -> (CrawlView, Option<(Option<Seq<char>>, Seq<char>)>)
    decreases unvisited_count(all_nodes(s.tree)),
{
    if crawl_over(c, s) {
        (s, None)
    } else {
        let t2 = pop_spec(s.tree).0;
        let s2 = CrawlView { tree: t2, ..s };
        match pop_spec(s.tree).1 {
            None => (s2, None),
            Some((prior, url)) => {
                proof {
                    lemma_pop_shrinks(s.tree);
                }
                if s.seen.contains(url) {
                    next_spec(c, f, s2)
                } else if is_mailto_spec(url) {
                    next_spec(c, f, note_mailto(s2, c, url))
                } else if !f.admits(url) {
                    next_spec(c, f, s2)
                } else {
                    (CrawlView { seen: s.seen.push(url), ..s2 }, Some((prior, url)))
                }
            },
        }
    }
}

/// `push` when the new node's depth fits in `i32`, else the tree unchanged.
pub open spec fn push_guarded(t: TreeSpec, prior: Option<Seq<char>>, next: Seq<char>) -> TreeSpec {
    if push_fits(t, prior) {
        push_spec(t, prior, next)
    } else {
        t
    }
}

/// Each URL that the filter admits and that was not handed out before joins
/// the frontier, referred from `from`.
pub open spec fn queue_urls(f: UrlFilter, s: CrawlView, from: Seq<char>, urls: Seq<Seq<char>>) -> CrawlView
    decreases urls.len(),
{
    if urls.len() == 0 {
        s
    } else {
        let s1 = queue_urls(f, s, from, urls.drop_last());
        let u = urls.last();
        if f.admits(u) && !s1.seen.contains(u) {
            CrawlView { tree: push_guarded(s1.tree, Some(from), u), ..s1 }
        } else {
            s1
        }
    }
}

/// The links of a page: with emails collected, a `mailto:` link gives its
/// address; any other link is queued as by `queue_urls`.
pub open spec fn take_links(c: CrawlConfig, f: UrlFilter, s: CrawlView, from: Seq<char>, hrefs: Seq<Seq<char>>) -> CrawlView
    decreases hrefs.len(),
{
    if hrefs.len() == 0 {
        s
    } else {
        let s1 = take_links(c, f, s, from, hrefs.drop_last());
        let h = hrefs.last();
        if is_mailto_spec(h) && c.email {
            note_mailto(s1, c, h)
        } else if f.admits(h) && !s1.seen.contains(h) {
            CrawlView { tree: push_guarded(s1.tree, Some(from), h), ..s1 }
        } else {
            s1
        }
    }
}

/// The targets resolved against `base`, leaving out those that do not resolve.
pub open spec fn resolved_targets(base: Seq<char>, targets: Seq<Seq<char>>) -> Seq<Seq<char>>
    decreases targets.len(),
{
    if targets.len() == 0 {
        Seq::empty()
    } else {
        let r = resolved_targets(base, targets.drop_last());
        match resolve_spec(url_parse_join(base, targets.last())) {
            Some(u) => r.push(u),
            None => r,
        }
    }
}

/// One more occurrence of `w` in the word counts, when it has at least
/// `min` bytes (and the tally can grow).
pub open spec fn bump_word(s: CrawlView, w: Seq<char>, min: usize) -> CrawlView {
    if byte_len(w) >= min && s.tally < u64::MAX {
        CrawlView { words: entries_bump(s.words, w), tally: (s.tally + 1) as u64, ..s }
    } else {
        s
    }
}

pub open spec fn bump_words(s: CrawlView, ws: Seq<Seq<char>>, min: usize) -> CrawlView
    decreases ws.len(),
{
    if ws.len() == 0 {
        s
    } else {
        bump_word(bump_words(s, ws.drop_last(), min), ws.last(), min)
    }
}

/// The words of the path of `url`.
pub open spec fn url_path_words(url: Seq<char>) -> Seq<Seq<char>> {
    match url_parse(url) {
        Some(u) => path_components_spec(u.path),
        None => Seq::empty(),
    }
}

/// The labels of the host of `url` before its registrable domain.
pub open spec fn url_subdomain_words(url: Seq<char>) -> Seq<Seq<char>> {
    match url_parse(url) {
        Some(u) => match u.host {
            Some(h) => subdomain_spec(h, psl_domain(h)),
            None => Seq::empty(),
        },
        None => Seq::empty(),
    }
}

/// The registrable domain of the host of `url`.
pub open spec fn url_registrable(url: Seq<char>) -> Option<Seq<char>> {
    match url_parse(url) {
        Some(u) => match u.host {
            Some(h) => registrable_spec(h, psl_domain(h)),
            None => None,
        },
        None => None,
    }
}

/// The URL's structure counted as words: the path words with
/// `--capture-paths`, the subdomain labels with `--capture-subdomains`, and
/// the registrable domain with `--capture-domain`.
pub open spec fn capture_spec(c: CrawlConfig, s: CrawlView, url: Seq<char>) -> CrawlView {
    let s1 = if c.capture_paths {
        bump_words(s, url_path_words(url), c.min_word_length)
    } else {
        s
    };
    let s2 = if c.capture_subdomains {
        bump_words(s1, url_subdomain_words(url), c.min_word_length)
    } else {
        s1
    };
    if c.capture_domain {
        match url_registrable(url) {
            Some(d) => bump_word(s2, d, c.min_word_length),
            None => s2,
        }
    } else {
        s2
    }
}

/// What follows the last `ch` in `s` (all of `s` when there is none).
pub open spec fn after_last(s: Seq<char>, ch: char) -> Seq<char> {
    match rfind_char(s, ch) {
        Some(i) => s.skip(i + 1),
        None => s,
    }
}

/// The name a fetched document is saved under: its own last path segment
/// when kept, else `cewl_tmp` with the URL's extension.
pub open spec fn document_name(url: Seq<char>, keep: bool) -> Seq<char> {
    if keep {
        after_last(url, '/')
    } else if after_last(url, '.').len() == 0 {
        "cewl_tmp"@
    } else {
        "cewl_tmp."@ + after_last(url, '.')
    }
}

/// A document rather than a page: by the URL's extension or the content type.
pub open spec fn document_kind(page_url: Seq<char>, content_type: Option<Seq<char>>) -> bool {
    is_binary_ext_spec(page_url) || (content_type matches Some(t) && binary_type(t))
}

/// The text of a page: scripts and styles stripped, the meta values and the
/// `alt`/`title` values appended, comments and tags replaced by spaces, and
/// entities decoded.
pub open spec fn page_text(c: CrawlConfig, html: Seq<char>) -> Seq<char> {
    let joined = strip_blocks_spec(html, c.keep_js, c.keep_css) + meta_append_spec(html) + alt_title_spec(html);
    html_entities_decoded(replace_all(Pattern::Tag, replace_all(Pattern::Comment, joined, seq![' ']), seq![' ']))
}

/// The emails of the text when emails are collected; then, with the word list
/// on, its counted words and groups (when the tally can take them).
pub open spec fn text_spec(c: CrawlConfig, s: CrawlView, text: Seq<char>) -> CrawlView {
    let s1 = if c.email {
        CrawlView { emails: s.emails + emails_of_text(text), ..s }
    } else {
        s
    };
    if c.wordlist {
        let n = normalized_text(text, c.lowercase, c.with_numbers, c.convert_umlauts);
        if n.len() <= u64::MAX - s1.tally {
            let ws = counted_words(n, c.min_word_length, c.max_word_length);
            CrawlView {
                words: entries_bump_all(s1.words, ws),
                groups: if c.groups > 0 {
                    entries_bump_all(s1.groups, word_groups(ws, c.groups as nat))
                } else {
                    s1.groups
                },
                tally: (s1.tally + n.len()) as u64,
                ..s1
            }
        } else {
            s1
        }
    } else {
        s1
    }
}

/// The final URL, body and content type of a response.
pub open spec fn outcome_body(o: FetchOutcome) -> Option<(Seq<char>, Seq<u8>, Option<Seq<char>>)> {
    match o {
        FetchOutcome::Response { final_url, body, content_type, .. } => Some((final_url@, body@, opt_view(content_type))),
        FetchOutcome::BrowserResponse { final_url, body, content_type, .. } => Some(
            (final_url@, body@, opt_view(content_type)),
        ),
        _ => None,
    }
}

/// The URLs the browser saw requested.
pub open spec fn outcome_found(o: FetchOutcome) -> Seq<Seq<char>> {
    match o {
        FetchOutcome::BrowserResponse { discovered_urls, .. } => strings_view(discovered_urls@),
        _ => Seq::empty(),
    }
}

/// The state after the outcome of fetching `page_url`, and the document to
/// save (name and bytes), if any.
pub open spec fn handle_spec(
    c: CrawlConfig,
    f: UrlFilter,
    s: CrawlView,
    page_url: Seq<char>,
    o: FetchOutcome,
    use_browser: bool,
) -> (CrawlView, Option<(Seq<char>, Seq<u8>)>) {
    match o {
        FetchOutcome::Redirect { from, to } => (CrawlView { tree: push_guarded(s.tree, Some(from@), to@), ..s }, None),
        _ => {
            let s1 = queue_urls(f, s, page_url, outcome_found(o));
            match outcome_body(o) {
                None => (s1, None),
                Some((url, body, ct)) => {
                    let s2 = capture_spec(c, CrawlView { pages_done: (s1.pages_done + 1) as u64, ..s1 }, url);
                    if document_kind(page_url, ct) && c.meta {
                        (s2, Some((document_name(page_url, c.keep), body)))
                    } else {
                        let html = body_text_spec(body, ct);
                        let s3 = take_links(c, f, s2, url, hrefs_spec(html, url));
                        let s4 = if use_browser {
                            s3
                        } else {
                            queue_urls(f, s3, url, resolved_targets(url, captures_all(CapturePattern::JsRedirect, html)))
                        };
                        if c.wordlist || c.email {
                            (text_spec(c, s4, page_text(c, html)), None)
                        } else {
                            (s4, None)
                        }
                    }
                },
            }
        },
    }
}

/// What the caller does after an outcome was handled.
pub enum Action {
    Continue,
    /// Save `body` as `file_name` in the metadata directory, read its metadata
    /// and hand the names found to `add_usernames`.
    SaveDocument { file_name: String, body: Vec<u8> },
}

/// A page handed out for fetching was not handed out before, passes the
/// filter, is no `mailto:` link, and respects the page limit; the seen list
/// grows by exactly that URL, and the page count does not move.
pub proof fn lemma_next_fresh(c: CrawlConfig, f: UrlFilter, s: CrawlView)
    ensures
        next_spec(c, f, s).0.pages_done == s.pages_done,
        next_spec(c, f, s).0.words == s.words,
        next_spec(c, f, s).1 is None ==> next_spec(c, f, s).0.seen == s.seen,
        next_spec(c, f, s).1 matches Some((p, u)) ==> {
            &&& !s.seen.contains(u)
            &&& next_spec(c, f, s).0.seen == s.seen.push(u)
            &&& f.admits(u)
            &&& !is_mailto_spec(u)
            &&& (c.max_pages > 0 ==> s.pages_done < c.max_pages)
        },
    decreases unvisited_count(all_nodes(s.tree)),
{
    if !crawl_over(c, s) {
        let s2 = CrawlView { tree: pop_spec(s.tree).0, ..s };
        if let Some((prior, url)) = pop_spec(s.tree).1 {
            lemma_pop_shrinks(s.tree);
            if s.seen.contains(url) {
                lemma_next_fresh(c, f, s2);
            } else if is_mailto_spec(url) {
                lemma_next_fresh(c, f, note_mailto(s2, c, url));
            } else if !f.admits(url) {
                lemma_next_fresh(c, f, s2);
            }
        }
    }
}

proof fn lemma_queue_keeps(f: UrlFilter, s: CrawlView, from: Seq<char>, urls: Seq<Seq<char>>)
    ensures
        queue_urls(f, s, from, urls) == (CrawlView { tree: queue_urls(f, s, from, urls).tree, ..s }),
    decreases urls.len(),
{
    if urls.len() > 0 {
        lemma_queue_keeps(f, s, from, urls.drop_last());
    }
}

proof fn lemma_links_keep(c: CrawlConfig, f: UrlFilter, s: CrawlView, from: Seq<char>, hrefs: Seq<Seq<char>>)
    ensures
        take_links(c, f, s, from, hrefs).seen == s.seen,
        take_links(c, f, s, from, hrefs).pages_done == s.pages_done,
        take_links(c, f, s, from, hrefs).words == s.words,
    decreases hrefs.len(),
{
    if hrefs.len() > 0 {
        lemma_links_keep(c, f, s, from, hrefs.drop_last());
    }
}

proof fn lemma_bump_words_keep(s: CrawlView, ws: Seq<Seq<char>>, min: usize)
    ensures
        bump_words(s, ws, min).seen == s.seen,
        bump_words(s, ws, min).pages_done == s.pages_done,
        bump_words(s, ws, min).tree == s.tree,
    decreases ws.len(),
{
    if ws.len() > 0 {
        lemma_bump_words_keep(s, ws.drop_last(), min);
    }
}

proof fn lemma_capture_keeps(c: CrawlConfig, s: CrawlView, url: Seq<char>)
    ensures
        capture_spec(c, s, url).seen == s.seen,
        capture_spec(c, s, url).pages_done == s.pages_done,
        capture_spec(c, s, url).tree == s.tree,
{
    lemma_bump_words_keep(s, url_path_words(url), c.min_word_length);
    let s1 = if c.capture_paths {
        bump_words(s, url_path_words(url), c.min_word_length)
    } else {
        s
    };
    lemma_bump_words_keep(s1, url_subdomain_words(url), c.min_word_length);
}

/// Handling an outcome never changes which URLs were handed out, and counts
/// one page exactly when the outcome carries a body.
pub proof fn lemma_handle_counts_pages(
    c: CrawlConfig,
    f: UrlFilter,
    s: CrawlView,
    page_url: Seq<char>,
    o: FetchOutcome,
    use_browser: bool,
)
    requires
        s.pages_done < u64::MAX,
    ensures
        handle_spec(c, f, s, page_url, o, use_browser).0.seen == s.seen,
        handle_spec(c, f, s, page_url, o, use_browser).0.pages_done == if outcome_body(o) is Some {
            s.pages_done + 1
        } else {
            s.pages_done as int
        },
{
    match o {
        FetchOutcome::Redirect { .. } => {},
        _ => {
            let s1 = queue_urls(f, s, page_url, outcome_found(o));
            lemma_queue_keeps(f, s, page_url, outcome_found(o));
            if let Some((url, body, ct)) = outcome_body(o) {
                let s1p = CrawlView { pages_done: (s1.pages_done + 1) as u64, ..s1 };
                let s2 = capture_spec(c, s1p, url);
                lemma_capture_keeps(c, s1p, url);
                let html = body_text_spec(body, ct);
                let s3 = take_links(c, f, s2, url, hrefs_spec(html, url));
                lemma_links_keep(c, f, s2, url, hrefs_spec(html, url));
                lemma_queue_keeps(
                    f,
                    s3,
                    url,
                    resolved_targets(url, captures_all(CapturePattern::JsRedirect, html)),
                );
            }
        },
    }
}

proof fn lemma_queue_depths(f: UrlFilter, s: CrawlView, from: Seq<char>, urls: Seq<Seq<char>>)
    requires
        depths_within_limit(s.tree),
    ensures
        depths_within_limit(queue_urls(f, s, from, urls).tree),
    decreases urls.len(),
{
    if urls.len() > 0 {
        lemma_queue_depths(f, s, from, urls.drop_last());
        let s1 = queue_urls(f, s, from, urls.drop_last());
        lemma_push_respects_depth(s1.tree, Some(from), urls.last());
    }
}

proof fn lemma_links_depths(c: CrawlConfig, f: UrlFilter, s: CrawlView, from: Seq<char>, hrefs: Seq<Seq<char>>)
    requires
        depths_within_limit(s.tree),
    ensures
        depths_within_limit(take_links(c, f, s, from, hrefs).tree),
    decreases hrefs.len(),
{
    if hrefs.len() > 0 {
        lemma_links_depths(c, f, s, from, hrefs.drop_last());
        let s1 = take_links(c, f, s, from, hrefs.drop_last());
        lemma_push_respects_depth(s1.tree, Some(from), hrefs.last());
    }
}

/// The crawl never queues a page (`mailto:` links aside) beyond the depth
/// limit: choosing the next page and handling an outcome both keep every
/// queued page within it.
pub proof fn lemma_crawl_respects_depth(
    c: CrawlConfig,
    f: UrlFilter,
    s: CrawlView,
    page_url: Seq<char>,
    o: FetchOutcome,
    use_browser: bool,
)
    requires
        depths_within_limit(s.tree),
    ensures
        depths_within_limit(next_spec(c, f, s).0.tree),
        depths_within_limit(handle_spec(c, f, s, page_url, o, use_browser).0.tree),
    decreases unvisited_count(all_nodes(s.tree)),
{
    if !crawl_over(c, s) {
        let s2 = CrawlView { tree: pop_spec(s.tree).0, ..s };
        lemma_pop_keeps_depths(s.tree);
        if let Some((prior, url)) = pop_spec(s.tree).1 {
            lemma_pop_shrinks(s.tree);
            if s.seen.contains(url) {
                lemma_crawl_respects_depth(c, f, s2, page_url, o, use_browser);
            } else if is_mailto_spec(url) {
                lemma_crawl_respects_depth(c, f, note_mailto(s2, c, url), page_url, o, use_browser);
            } else if !f.admits(url) {
                lemma_crawl_respects_depth(c, f, s2, page_url, o, use_browser);
            }
        }
    }
    match o {
        FetchOutcome::Redirect { from, to } => {
            lemma_push_respects_depth(s.tree, Some(from@), to@);
        },
        _ => {
            let s1 = queue_urls(f, s, page_url, outcome_found(o));
            lemma_queue_depths(f, s, page_url, outcome_found(o));
            if let Some((url, body, ct)) = outcome_body(o) {
                let s1p = CrawlView { pages_done: (s1.pages_done + 1) as u64, ..s1 };
                lemma_capture_keeps(c, s1p, url);
                let s2 = capture_spec(c, s1p, url);
                assert(s2.tree == s1.tree);
                let html = body_text_spec(body, ct);
                lemma_links_depths(c, f, s2, url, hrefs_spec(html, url));
                let s3 = take_links(c, f, s2, url, hrefs_spec(html, url));
                lemma_queue_depths(
                    f,
                    s3,
                    url,
                    resolved_targets(url, captures_all(CapturePattern::JsRedirect, html)),
                );
            }
        },
    }
}

/// No URL is handed out twice: the handed-out list stays free of duplicates
/// through every step of the crawl.
pub proof fn lemma_seen_stays_distinct(
    c: CrawlConfig,
    f: UrlFilter,
    s: CrawlView,
    page_url: Seq<char>,
    o: FetchOutcome,
    use_browser: bool,
)
    requires
        s.seen.no_duplicates(),
        s.pages_done < u64::MAX,
    ensures
        next_spec(c, f, s).0.seen.no_duplicates(),
        handle_spec(c, f, s, page_url, o, use_browser).0.seen.no_duplicates(),
{
    lemma_next_fresh(c, f, s);
    lemma_handle_counts_pages(c, f, s, page_url, o, use_browser);
    if let Some((p, u)) = next_spec(c, f, s).1 {
        let n = s.seen.push(u);
        assert forall|i: int, j: int| 0 <= i < n.len() && 0 <= j < n.len() && i != j implies n[i] != n[j] by {
            if i < s.seen.len() && j < s.seen.len() {
                assert(n[i] == s.seen[i] && n[j] == s.seen[j]);
            } else if i < s.seen.len() {
                assert(n[i] == s.seen[i]);
                assert(s.seen.contains(n[i]));
            } else if j < s.seen.len() {
                assert(n[j] == s.seen[j]);
                assert(s.seen.contains(n[j]));
            }
        }
    }
}

/// What the caller does next.
pub enum Step {
    /// The crawl is over.
    Done,
    /// Fetch `url`, with the browser when `use_browser`.
    Fetch { prior: Option<String>, url: String, use_browser: bool },
}

/// The browser renders a page unless it is a document, or digest authentication is used.
pub open spec fn browser_for(c: CrawlConfig, url: Seq<char>) -> bool {
    c.browser && !is_binary_ext_spec(url) && !c.digest
}

/// `url` without its leading `mailto:` prefixes.
fn mailto_address_of(url: &str) -> (r: String)
    ensures
        r@ == mailto_address(url@),
{
    let v = chars_of(url);
    let p = chars_of("mailto:");
    proof {
        reveal_strlit("mailto:");
    }
    let mut i: usize = 0;
    assert(v@.skip(0) =~= v@);
    while p.len() <= v.len() - i && crate::scan::occurs_at_exec(&v, &p, i)
        invariant
            i <= v@.len(),
            p@ == "mailto:"@,
            p@.len() == 7,
            strip_all_prefix(v@.skip(i as int), p@) == strip_all_prefix(v@, p@),
        decreases v.len() - i,
    {
        assert(v@.skip(i as int).take(7) =~= v@.subrange(i as int, i + 7));
        assert(starts_with(v@.skip(i as int), p@));
        assert(v@.skip(i as int).skip(7) =~= v@.skip(i + 7));
        i += p.len();
    }
    assert(!starts_with(v@.skip(i as int), p@)) by {
        if p@.len() <= v@.len() - i {
            assert(v@.skip(i as int).take(7) =~= v@.subrange(i as int, i + 7));
        }
    }
    let r = crate::text::slice_chars(&v, i, v.len());
    assert(r@ =~= v@.skip(i as int));
    string_of(r.as_slice())
}

/// The name a fetched document is saved under (see `document_name`).
pub fn document_file_name(url: &str, keep: bool) -> (r: String)
    ensures
        r@ == document_name(url@, keep),
{
    let v = chars_of(url);
    assert(v@.take(v@.len() as int) =~= v@);
    if keep {
        let tail = match crate::capture::rfind_char_exec(&v, v.len(), '/') {
            Some(i) => crate::text::slice_chars(&v, i + 1, v.len()),
            None => crate::text::slice_chars(&v, 0, v.len()),
        };
        assert(tail@ =~= after_last(url@, '/'));
        string_of(tail.as_slice())
    } else {
        let ext = match crate::capture::rfind_char_exec(&v, v.len(), '.') {
            Some(i) => crate::text::slice_chars(&v, i + 1, v.len()),
            None => crate::text::slice_chars(&v, 0, v.len()),
        };
        assert(ext@ =~= after_last(url@, '.'));
        if ext.len() == 0 {
            "cewl_tmp".to_owned()
        } else {
            let e = string_of(ext.as_slice());
            crate::text::concat_str("cewl_tmp.", e.as_str())
        }
    }
}

/// The text of a page (see `page_text`).
pub fn page_text_of(c: &CrawlConfig, html: &str) -> (r: String)
    ensures
        r@ == page_text(*c, html@),
{
    let stripped = crate::html::strip_scripts_styles_simple(html, c.keep_js, c.keep_css);
    let meta = crate::html::extract_meta_append(html);
    let alt = crate::html::harvest_alt_title(html);
    let a = crate::text::concat_str(stripped.as_str(), meta.as_str());
    let mut body = crate::text::concat_str(a.as_str(), alt.as_str());
    crate::html::strip_comments(&mut body);
    let no_tags = crate::html::strip_html_tags(body.as_str());
    crate::html::decode_html_entities(no_tags.as_str())
}

fn push_all(out: &mut Vec<String>, items: Vec<String>)
    ensures
        strings_view(final(out)@) == strings_view(old(out)@) + strings_view(items@),
{
    let ghost start = strings_view(out@);
    let ghost iv = strings_view(items@);
    let mut i: usize = 0;
    while i < items.len()
        invariant
            i <= items@.len(),
            iv == strings_view(items@),
            start == strings_view(old(out)@),
            strings_view(out@) == start + iv.take(i as int),
        decreases items.len() - i,
    {
        let ghost before = strings_view(out@);
        out.push(items[i].clone());
        assert(strings_view(out@) =~= before.push(iv[i as int]));
        assert(iv.take(i + 1) =~= iv.take(i as int).push(iv[i as int]));
        i += 1;
    }
    assert(iv.take(items@.len() as int) =~= iv);
}

/// A browser error is retried with the static fetcher unless fallback is off.
pub fn needs_fallback(outcome: &FetchOutcome, no_fallback: bool) -> (b: bool)
    ensures
        b == (*outcome is Error && !no_fallback),
{
    match outcome {
        FetchOutcome::Error(_) => !no_fallback,
        _ => false,
    }
}

impl Crawler {
    pub open spec fn wf(&self) -> bool {
        counts_fit(self@)
    }

    /// A crawl that starts at `seed`, with pages at most `depth` links away.
    pub fn new(config: CrawlConfig, filter: UrlFilter, seed: String, depth: i32, debug: bool) -> (c: Self)
        ensures
            c.wf(),
            c.config == config,
            c.filter == filter,
            c@ == (CrawlView {
                tree: TreeSpec {
                    root: new_node(None, seed@, 0),
                    children: Seq::empty(),
                    max_depth: depth as int,
                    debug,
                },
                seen: Seq::empty(),
                words: Seq::empty(),
                groups: Seq::empty(),
                emails: Seq::empty(),
                usernames: Seq::empty(),
                pages_done: 0,
                tally: 0,
            }),
    {
        let mut tree = Tree::new(None, String::new(), 0, debug);
        tree.max_depth = depth;
        tree.push(None, seed);
        let c = Crawler {
            config,
            filter,
            tree,
            seen: Vec::new(),
            words: new_counts(),
            groups: new_counts(),
            emails: Vec::new(),
            usernames: Vec::new(),
            pages_done: 0,
            tally: 0,
        };
        assert(strings_view(c.seen@) =~= Seq::<Seq<char>>::empty());
        assert(strings_view(c.emails@) =~= Seq::<Seq<char>>::empty());
        assert(strings_view(c.usernames@) =~= Seq::<Seq<char>>::empty());
        c
    }

    /// The tree takes `next` referred from `prior` when the depth fits.
    fn push_checked(&mut self, prior: String, next: String)
        requires
            old(self).wf(),
        ensures
            final(self).wf(),
            final(self).config == old(self).config,
            final(self).filter == old(self).filter,
            final(self).pages_done == old(self).pages_done,
            final(self)@ == (CrawlView { tree: push_guarded(old(self)@.tree, Some(prior@), next@), ..old(self)@ }),
    {
        let p = Some(prior);
        if self.tree.can_push(&p) {
            self.tree.push(p, next);
        }
    }

    /// One step of `queue_urls`.
    fn queue_one(&mut self, from: &str, u: &String)
        requires
            old(self).wf(),
        ensures
            final(self).wf(),
            final(self).config == old(self).config,
            final(self).filter == old(self).filter,
            final(self).pages_done == old(self).pages_done,
            final(self)@ == (if old(self).filter.admits(u@) && !old(self)@.seen.contains(u@) {
                CrawlView { tree: push_guarded(old(self)@.tree, Some(from@), u@), ..old(self)@ }
            } else {
                old(self)@
            }),
    {
        if self.filter.admit_url(u.as_str()) && !contains_string(&self.seen, u) {
            self.push_checked(from.to_owned(), u.clone());
        }
    }

    /// `queue_urls` over `urls`.
    fn queue_all(&mut self, from: &str, urls: &[String])
        requires
            old(self).wf(),
        ensures
            final(self).wf(),
            final(self).config == old(self).config,
            final(self).filter == old(self).filter,
            final(self).pages_done == old(self).pages_done,
            final(self)@ == queue_urls(old(self).filter, old(self)@, from@, strings_view(urls@)),
    {
        let ghost s0 = self@;
        let ghost uv = strings_view(urls@);
        let mut i: usize = 0;
        while i < urls.len()
            invariant
                i <= urls@.len(),
                uv == strings_view(urls@),
                self.wf(),
                self.config == old(self).config,
                self.filter == old(self).filter,
                self.pages_done == old(self).pages_done,
                s0 == old(self)@,
                self@ == queue_urls(self.filter, s0, from@, uv.take(i as int)),
            decreases urls.len() - i,
        {
            assert(uv.take(i + 1).drop_last() =~= uv.take(i as int));
            assert(uv.take(i + 1).last() == urls@[i as int]@);
            self.queue_one(from, &urls[i]);
            i += 1;
        }
        assert(uv.take(urls@.len() as int) =~= uv);
    }

    /// `take_links` over `hrefs`.
    fn take_all_links(&mut self, from: &str, hrefs: &Vec<String>)
        requires
            old(self).wf(),
        ensures
            final(self).wf(),
            final(self).config == old(self).config,
            final(self).filter == old(self).filter,
            final(self).pages_done == old(self).pages_done,
            final(self)@ == take_links(old(self).config, old(self).filter, old(self)@, from@, strings_view(hrefs@)),
    {
        let ghost s0 = self@;
        let ghost hv = strings_view(hrefs@);
        let mut i: usize = 0;
        while i < hrefs.len()
            invariant
                i <= hrefs@.len(),
                hv == strings_view(hrefs@),
                self.wf(),
                self.config == old(self).config,
                self.filter == old(self).filter,
                self.pages_done == old(self).pages_done,
                s0 == old(self)@,
                self@ == take_links(self.config, self.filter, s0, from@, hv.take(i as int)),
            decreases hrefs.len() - i,
        {
            assert(hv.take(i + 1).drop_last() =~= hv.take(i as int));
            assert(hv.take(i + 1).last() == hrefs@[i as int]@);
            let h = &hrefs[i];
            if UrlFilter::is_mailto(h.as_str()) && self.config.email {
                let addr = mailto_address_of(h.as_str());
                if !addr.as_str().is_empty() {
                    let ghost before = self.emails@;
                    self.emails.push(addr);
                    assert(strings_view(self.emails@) =~= strings_view(before).push(mailto_address(h@)));
                }
            } else {
                self.queue_one(from, h);
            }
            i += 1;
        }
        assert(hv.take(hrefs@.len() as int) =~= hv);
    }

    /// The `location.href` targets of a page, resolved and queued.
    fn queue_redirects(&mut self, from: &str, html: &str)
        requires
            old(self).wf(),
        ensures
            final(self).wf(),
            final(self).config == old(self).config,
            final(self).filter == old(self).filter,
            final(self).pages_done == old(self).pages_done,
            final(self)@ == queue_urls(
                old(self).filter,
                old(self)@,
                from@,
                resolved_targets(from@, captures_all(CapturePattern::JsRedirect, html@)),
            ),
    {
        let targets = crate::html::extract_js_redirects(html);
        let ghost tv = strings_view(targets@);
        let ghost s0 = self@;
        let mut i: usize = 0;
        while i < targets.len()
            invariant
                i <= targets@.len(),
                tv == strings_view(targets@),
                self.wf(),
                self.config == old(self).config,
                self.filter == old(self).filter,
                self.pages_done == old(self).pages_done,
                s0 == old(self)@,
                self@ == queue_urls(self.filter, s0, from@, resolved_targets(from@, tv.take(i as int))),
            decreases targets.len() - i,
        {
            assert(tv.take(i + 1).drop_last() =~= tv.take(i as int));
            assert(tv.take(i + 1).last() == targets@[i as int]@);
            let ghost prev = resolved_targets(from@, tv.take(i as int));
            match crate::html::resolve_href(from, targets[i].as_str()) {
                Some(r) => {
                    assert(resolved_targets(from@, tv.take(i + 1)) == prev.push(r@));
                    assert(prev.push(r@).drop_last() =~= prev);
                    self.queue_one(from, &r);
                },
                None => {},
            }
            i += 1;
        }
        assert(tv.take(targets@.len() as int) =~= tv);
    }

    /// One more occurrence of `w` in the word counts (see `bump_word`).
    fn bump_one(&mut self, w: String)
        requires
            old(self).wf(),
        ensures
            final(self).wf(),
            final(self).config == old(self).config,
            final(self).filter == old(self).filter,
            final(self)@ == bump_word(old(self)@, w@, old(self).config.min_word_length),
    {
        let n = byte_len_of(chars_of(w.as_str()).as_slice());
        if n >= self.config.min_word_length as u128 && self.tally < u64::MAX {
            proof {
                let e = index_map_entries(self.words);
                crate::counts::lemma_entry_index_from(e, w@, 0);
                lemma_bump_bound(e, w@, self.tally as int);
            }
            bump_count(&mut self.words, w);
            self.tally = self.tally + 1;
        }
    }

    /// `bump_words` over `ws`.
    fn bump_all(&mut self, ws: Vec<String>)
        requires
            old(self).wf(),
        ensures
            final(self).wf(),
            final(self).config == old(self).config,
            final(self).filter == old(self).filter,
            final(self)@ == bump_words(old(self)@, strings_view(ws@), old(self).config.min_word_length),
    {
        let ghost s0 = self@;
        let ghost wv = strings_view(ws@);
        let mut i: usize = 0;
        while i < ws.len()
            invariant
                i <= ws@.len(),
                wv == strings_view(ws@),
                self.wf(),
                self.config == old(self).config,
                self.filter == old(self).filter,
                s0 == old(self)@,
                self@ == bump_words(s0, wv.take(i as int), self.config.min_word_length),
            decreases ws.len() - i,
        {
            assert(wv.take(i + 1).drop_last() =~= wv.take(i as int));
            assert(wv.take(i + 1).last() == ws@[i as int]@);
            self.bump_one(ws[i].clone());
            i += 1;
        }
        assert(wv.take(ws@.len() as int) =~= wv);
    }

    /// Counts the structure of `url` as words (see `capture_spec`).
    fn capture(&mut self, url: &str)
        requires
            old(self).wf(),
        ensures
            final(self).wf(),
            final(self).config == old(self).config,
            final(self).filter == old(self).filter,
            final(self)@ == capture_spec(old(self).config, old(self)@, url@),
    {
        if self.config.capture_paths {
            self.bump_all(crate::capture::extract_path_components(url));
        }
        if self.config.capture_subdomains {
            self.bump_all(crate::capture::extract_subdomain_components(url));
        }
        if self.config.capture_domain {
            if let Some(d) = crate::capture::extract_registrable_domain(url) {
                self.bump_one(d);
            }
        }
    }

    /// The emails and words of a page's text (see `text_spec`).
    fn take_text(&mut self, text: &str)
        requires
            old(self).wf(),
        ensures
            final(self).wf(),
            final(self).config == old(self).config,
            final(self).filter == old(self).filter,
            final(self)@ == text_spec(old(self).config, old(self)@, text@),
    {
        if self.config.email {
            let found = crate::email::extract_emails_from_text(text);
            push_all(&mut self.emails, found);
        }
        if self.config.wordlist {
            let c = &self.config;
            let n = crate::words::normalize_words(text, c.lowercase, c.with_numbers, c.convert_umlauts);
            let nlen = chars_of(n.as_str()).len();
            if (nlen as u128) <= (u64::MAX - self.tally) as u128 {
                let ghost ws = counted_words(n@, self.config.min_word_length, self.config.max_word_length);
                let ghost g = self.config.groups;
                proof {
                    lemma_counted_len(n@, self.config.min_word_length, self.config.max_word_length, g as nat);
                    lemma_bump_all_bound(index_map_entries(self.words), ws, self.tally as int);
                    if g > 0 {
                        lemma_bump_all_bound(index_map_entries(self.groups), word_groups(ws, g as nat), self.tally as int);
                    }
                }
                crate::words::count_words(
                    n.as_str(),
                    self.config.min_word_length,
                    self.config.max_word_length,
                    &mut self.words,
                    self.config.groups,
                    &mut self.groups,
                );
                self.tally = self.tally + nlen as u64;
            }
        }
    }

    /// Takes in the outcome of fetching `page_url` (see `handle_spec`).
    pub fn handle_outcome(&mut self, page_url: &str, outcome: FetchOutcome, use_browser: bool) -> (r: Action)
        requires
            old(self).wf(),
            old(self).pages_done < u64::MAX,
            outcome_body(outcome) matches Some((_, b, _)) ==> b.len() <= usize::MAX / 4,
        ensures
            final(self).wf(),
            final(self).config == old(self).config,
            final(self).filter == old(self).filter,
            final(self)@ == handle_spec(old(self).config, old(self).filter, old(self)@, page_url@, outcome, use_browser).0,
            match (r, handle_spec(old(self).config, old(self).filter, old(self)@, page_url@, outcome, use_browser).1) {
                (Action::Continue, None) => true,
                (Action::SaveDocument { file_name, body }, Some((n, b))) => file_name@ == n && body@ == b,
                _ => false,
            },
    {
        let ghost o = outcome;
        let outcome = match outcome {
            FetchOutcome::Redirect { from, to } => {
                self.push_checked(from, to);
                return Action::Continue;
            },
            other => other,
        };
        self.queue_all(page_url, outcome.discovered_urls());
        let (final_url, body, ct) = match outcome.body_and_url() {
            Some(t) => t,
            None => {
                return Action::Continue;
            },
        };
        self.pages_done = self.pages_done + 1;
        self.capture(final_url.as_str());
        let is_doc = UrlFilter::is_binary_ext(page_url) || match &ct {
            Some(t) => crate::fetcher::is_binary_type(t.as_str()),
            None => false,
        };
        if is_doc && self.config.meta {
            return Action::SaveDocument { file_name: document_file_name(page_url, self.config.keep), body };
        }
        let html = crate::html::decode_body_bytes(body.as_slice(), crate::crawler::opt_as_str(&ct));
        let hrefs = crate::html::extract_hrefs(html.as_str(), final_url.as_str());
        self.take_all_links(final_url.as_str(), &hrefs);
        if !use_browser {
            self.queue_redirects(final_url.as_str(), html.as_str());
        }
        if !self.config.wordlist && !self.config.email {
            return Action::Continue;
        }
        let text = page_text_of(&self.config, html.as_str());
        self.take_text(text.as_str());
        Action::Continue
    }

    /// The names read from a saved document join the usernames.
    pub fn add_usernames(&mut self, names: Vec<String>)
        ensures
            final(self).config == old(self).config,
            final(self).filter == old(self).filter,
            final(self)@ == (CrawlView { usernames: old(self)@.usernames + strings_view(names@), ..old(self)@ }),
    {
        push_all(&mut self.usernames, names);
    }

    /// The counts as they stand, and the emails and usernames sorted, without
    /// duplicates or blanks.
    pub fn finish(self) -> (r: CrawlResult)
        ensures
            index_map_entries(r.words) == self@.words,
            index_map_entries(r.groups) == self@.groups,
            strictly_sorted(strings_view(r.emails@)),
            forall|x: Seq<char>| strings_view(r.emails@).contains(x) <==> (self@.emails.contains(x) && nonblank(x)),
            strictly_sorted(strings_view(r.usernames@)),
            forall|x: Seq<char>| strings_view(r.usernames@).contains(x) <==> (self@.usernames.contains(x) && nonblank(x)),
    {
        let emails = tidy_list(&self.emails);
        let usernames = tidy_list(&self.usernames);
        CrawlResult { words: self.words, groups: self.groups, emails, usernames }
    }

    /// Chooses the next page to fetch (see `next_spec`).
    pub fn next_step(&mut self) -> (r: Step)
        requires
            old(self).wf(),
        ensures
            final(self).wf(),
            final(self).config == old(self).config,
            final(self).filter == old(self).filter,
            final(self)@ == next_spec(old(self).config, old(self).filter, old(self)@).0,
            match (r, next_spec(old(self).config, old(self).filter, old(self)@).1) {
                (Step::Done, None) => true,
                (Step::Fetch { prior, url, use_browser }, Some((p, u))) => {
                    &&& opt_string_view(prior) == p
                    &&& url@ == u
                    &&& use_browser == browser_for(old(self).config, u)
                },
                _ => false,
            },
    {
        let ghost c0 = self.config;
        let ghost f0 = self.filter;
        let ghost target = next_spec(c0, f0, self@);
        loop
            invariant
                self.wf(),
                self.config == c0,
                self.filter == f0,
                old(self).config == c0,
                old(self).filter == f0,
                target == next_spec(old(self).config, old(self).filter, old(self)@),
                next_spec(c0, f0, self@) == target,
            decreases unvisited_count(all_nodes(self.tree@)),
        {
            let ghost s0 = self@;
            if self.tree.empty() || (self.config.max_pages > 0 && self.pages_done >= self.config.max_pages)
                || self.pages_done == u64::MAX {
                return Step::Done;
            }
            proof {
                crate::tree::lemma_empty_iff_pop_none(self.tree@);
                lemma_pop_shrinks(self.tree@);
            }
            let popped = self.tree.pop();
            let (prior, url) = match popped {
                Some(p) => p,
                None => {
                    return Step::Done;
                },
            };
            assert(self@ == CrawlView { tree: pop_spec(s0.tree).0, ..s0 });
            if contains_string(&self.seen, &url) {
                continue;
            }
            if UrlFilter::is_mailto(url.as_str()) {
                if self.config.email {
                    let addr = mailto_address_of(url.as_str());
                    if !addr.as_str().is_empty() {
                        let ghost before = self.emails@;
                        self.emails.push(addr);
                        assert(strings_view(self.emails@) =~= strings_view(before).push(mailto_address(url@)));
                    }
                }
                continue;
            }
            if !self.filter.admit_url(url.as_str()) {
                continue;
            }
            let ghost before = self.seen@;
            self.seen.push(url.clone());
            assert(strings_view(self.seen@) =~= strings_view(before).push(url@));
            let use_browser = self.config.browser && !UrlFilter::is_binary_ext(url.as_str()) && !self.config.digest;
            return Step::Fetch { prior, url, use_browser };
        }
    }
}

} // verus!
