//! URL-structure word captures: path components, subdomains, registrable domain.
use vstd::prelude::*;
use crate::text::{
    chars_of, string_of, split_char, split_char_exec, strings_of, strings_view, charvecs_view,
    lemma_split_char_nonempty, find_char_from, rfind_char, is_ascii_alnum, lemma_find_char_from,
};
use crate::urls::{parse_url, registrable_domain_bytes, utf8_decode, url_parse, psl_domain};
use crate::scan::find_char_from_exec;

verus! {

broadcast use vstd::string::group_string_axioms;

/// Characters that survive in a path word: `[a-zA-Z0-9\-_]`.
pub open spec fn path_char_allowed(c: char) -> bool {
    is_ascii_alnum(c) || c == '-' || c == '_'
}

/// `s` with every character that is not allowed in a path word removed.
pub open spec fn keep_allowed(s: Seq<char>) -> Seq<char>
    decreases s.len(),
{
    if s.len() == 0 {
        Seq::empty()
    } else if path_char_allowed(s.last()) {
        keep_allowed(s.drop_last()).push(s.last())
    } else {
        keep_allowed(s.drop_last())
    }
}

/// The part of `s` before the first `c` (`s.split(c).next()`).
pub open spec fn before_first(s: Seq<char>, c: char) -> Seq<char> {
    match find_char_from(s, c, 0) {
        Some(i) => s.take(i),
        None => s,
    }
}

/// The part of `s` before the last `c`, or all of `s` (`rfind` then `truncate`).
pub open spec fn before_last(s: Seq<char>, c: char) -> Seq<char> {
    match rfind_char(s, c) {
        Some(i) => s.take(i),
        None => s,
    }
}

/// One path segment made into a word: query and extension cut off, then
/// only the allowed characters kept.
pub open spec fn clean_path_part(p: Seq<char>) -> Seq<char> {
    keep_allowed(before_last(before_first(p, '?'), '.'))
}

/// The words of the non-empty segments that are at least 3 characters long once cleaned.
pub open spec fn path_words(parts: Seq<Seq<char>>) -> Seq<Seq<char>>
    decreases parts.len(),
{
    if parts.len() == 0 {
        Seq::empty()
    } else {
        let prev = path_words(parts.drop_last());
        let p = parts.last();
        if p.len() > 0 && clean_path_part(p).len() >= 3 {
            prev.push(clean_path_part(p))
        } else {
            prev
        }
    }
}

/// The words that a URL path contributes.
pub open spec fn path_components_spec(path: Seq<char>) -> Seq<Seq<char>> {
    if path.len() == 0 || path == seq!['/'] {
        Seq::empty()
    } else {
        path_words(split_char(path, '/'))
    }
}

fn keep_allowed_exec(s: &Vec<char>, n: usize) -> (r: Vec<char>)
    requires
        n <= s.len(),
    ensures
        r@ == keep_allowed(s@.take(n as int)),
{
    let mut out: Vec<char> = Vec::new();
    let mut i: usize = 0;
    while i < n
        invariant
            i <= n <= s.len(),
            out@ == keep_allowed(s@.take(i as int)),
        decreases n - i,
    {
        let ghost t = s@.take(i + 1);
        assert(t.drop_last() =~= s@.take(i as int));
        let c = s[i];
        if ('a' <= c && c <= 'z') || ('A' <= c && c <= 'Z') || ('0' <= c && c <= '9') || c == '-' || c == '_' {
            out.push(c);
        }
        i += 1;
    }
    out
}

pub(crate) fn rfind_char_exec(s: &Vec<char>, n: usize, c: char) -> (r: Option<usize>)
    requires
        n <= s.len(),
    ensures
        match r {
            Some(i) => rfind_char(s@.take(n as int), c) == Some(i as int) && i < n,
            None => rfind_char(s@.take(n as int), c) is None,
        },
{
    let mut j = n;
    while j > 0
        invariant
            j <= n <= s.len(),
            rfind_char(s@.take(n as int), c) == rfind_char(s@.take(j as int), c),
        decreases j,
    {
        let ghost t = s@.take(j as int);
        assert(t.drop_last() =~= s@.take(j - 1));
        if s[j - 1] == c {
            return Some(j - 1);
        }
        j -= 1;
    }
    None
}

fn clean_path_part_exec(p: &Vec<char>) -> (r: Vec<char>)
    ensures
        r@ == clean_path_part(p@),
{
    let q = match find_char_from_exec(p, '?', 0) {
        Some(i) => {
            proof {
                lemma_find_char_from(p@, '?', 0);
            }
            i
        },
        None => p.len(),
    };
    let ghost bq = before_first(p@, '?');
    assert(bq =~= p@.take(q as int));
    let d = match rfind_char_exec(p, q, '.') {
        Some(i) => i,
        None => q,
    };
    assert(before_last(bq, '.') =~= p@.take(d as int));
    keep_allowed_exec(p, d)
}

/// The words that a URL path contributes: each non-empty `/`-separated
/// segment, cut at `?` and at its last `.`, stripped to `[a-zA-Z0-9\-_]`, kept
/// when at least 3 characters long.
pub fn path_components(path: &str) -> (r: Vec<String>)
    ensures
        strings_view(r@) == path_components_spec(path@),
{
    let pv = chars_of(path);
    if pv.len() == 0 || (pv.len() == 1 && pv[0] == '/') {
        proof {
            if pv.len() == 1 {
                assert(path@ =~= seq!['/']);
            }
        }
        return Vec::new();
    }
    assert(path@ != seq!['/']);
    let parts = split_char_exec(&pv, '/');
    let ghost pw = charvecs_view(parts@);
    let mut out: Vec<String> = Vec::new();
    let mut i: usize = 0;
    while i < parts.len()
        invariant
            i <= parts.len(),
            pw == charvecs_view(parts@),
            strings_view(out@) == path_words(pw.take(i as int)),
        decreases parts.len() - i,
    {
        let ghost t = pw.take(i + 1);
        assert(t.drop_last() =~= pw.take(i as int));
        assert(t.last() == parts@[i as int]@);
        if parts[i].len() > 0 {
            let clean = clean_path_part_exec(&parts[i]);
            if clean.len() >= 3 {
                let ghost before = strings_view(out@);
                let st = string_of(clean.as_slice());
                out.push(st);
                assert(strings_view(out@) =~= before.push(clean@));
            }
        }
        i += 1;
    }
    assert(pw.take(parts.len() as int) =~= pw);
    out
}

/// The words that the path of `url` contributes; none when `url` does not parse.
pub fn extract_path_components(url: &str) -> (r: Vec<String>)
    ensures
        strings_view(r@) == match url_parse(url@) {
            Some(u) => path_components_spec(u.path),
            None => Seq::empty(),
        },
{
    match parse_url(url) {
        Some(u) => path_components(u.path.as_str()),
        None => {
            let v: Vec<String> = Vec::new();
            assert(strings_view(v@) =~= Seq::<Seq<char>>::empty());
            v
        },
    }
}

/// The text of the registrable domain bytes: decoded when valid UTF-8, else `fallback`.
pub open spec fn domain_text_or(d: Seq<u8>, fallback: Seq<char>) -> Seq<char> {
    if vstd::utf8::valid_utf8(d) {
        vstd::utf8::decode_utf8(d)
    } else {
        fallback
    }
}

/// The labels of `host` before its registrable domain.
pub open spec fn subdomain_spec(host: Seq<char>, domain: Option<Seq<u8>>) -> Seq<Seq<char>> {
    let parts = split_char(host, '.');
    let width: int = match domain {
        Some(d) => split_char(domain_text_or(d, host), '.').len() as int,
        None => if parts.len() < 2 {
            parts.len() as int
        } else {
            2
        },
    };
    let count: int = if parts.len() >= width {
        parts.len() - width
    } else {
        0
    };
    parts.take(count)
}

/// The labels of `host` in front of its registrable domain `domain` (as
/// `psl::domain` gives it); without one, all labels but the last two.
pub fn subdomain_components(host: &str, domain: Option<Vec<u8>>) -> (r: Vec<String>)
    ensures
        strings_view(r@) == subdomain_spec(host@, match domain {
            Some(d) => Some(d@),
            None => None,
        }),
{
    let hv = chars_of(host);
    let parts = split_char_exec(&hv, '.');
    let width: usize = match domain {
        Some(d) => {
            let text = match utf8_decode(d.as_slice()) {
                Some(s) => chars_of(s.as_str()),
                None => chars_of(host),
            };
            let dp = split_char_exec(&text, '.');
            dp.len()
        },
        None => if parts.len() < 2 {
            parts.len()
        } else {
            2
        },
    };
    let count = if parts.len() >= width {
        parts.len() - width
    } else {
        0
    };
    strings_of(&parts, count)
}

/// The labels of the host of `url` before its registrable domain.
pub fn extract_subdomain_components(url: &str) -> (r: Vec<String>)
    ensures
        strings_view(r@) == match url_parse(url@) {
            Some(u) => match u.host {
                Some(h) => subdomain_spec(h, psl_domain(h)),
                None => Seq::empty(),
            },
            None => Seq::empty(),
        },
{
    let empty: Vec<String> = Vec::new();
    assert(strings_view(empty@) =~= Seq::<Seq<char>>::empty());
    match parse_url(url) {
        Some(u) => match u.host {
            Some(h) => {
                let d = registrable_domain_bytes(h.as_str());
                subdomain_components(h.as_str(), d)
            },
            None => empty,
        },
        None => empty,
    }
}

/// The registrable domain of `host`: the text of `domain` (as `psl::domain`
/// gives it) when it is valid UTF-8, or without one the last two labels.
pub open spec fn registrable_spec(host: Seq<char>, domain: Option<Seq<u8>>) -> Option<Seq<char>> {
    match domain {
        Some(d) => if vstd::utf8::valid_utf8(d) {
            Some(vstd::utf8::decode_utf8(d))
        } else {
            None
        },
        None => {
            let parts = split_char(host, '.');
            if parts.len() >= 2 {
                Some(parts[parts.len() - 2] + seq!['.'] + parts[parts.len() - 1])
            } else {
                None
            }
        },
    }
}

/// The registrable domain of `host` from what `psl::domain` gave (`domain`).
pub fn registrable_domain_from(host: &str, domain: Option<Vec<u8>>) -> (r: Option<String>)
    ensures
        crate::urls::opt_view(r) == registrable_spec(host@, match domain {
            Some(d) => Some(d@),
            None => None,
        }),
{
    match domain {
        Some(d) => utf8_decode(d.as_slice()),
        None => {
            let hv = chars_of(host);
            let parts = split_char_exec(&hv, '.');
            let n = parts.len();
            if n >= 2 {
                let mut out: Vec<char> = Vec::new();
                let mut j: usize = 0;
                while j < parts[n - 2].len()
                    invariant
                        n == parts@.len(),
                        n >= 2,
                        j <= parts@[n - 2]@.len(),
                        out@ == parts@[n - 2]@.take(j as int),
                    decreases parts@[n - 2]@.len() - j,
                {
                    out.push(parts[n - 2][j]);
                    j += 1;
                    assert(out@ =~= parts@[n - 2]@.take(j as int));
                }
                out.push('.');
                let ghost mid = out@;
                let mut k: usize = 0;
                while k < parts[n - 1].len()
                    invariant
                        n == parts@.len(),
                        n >= 2,
                        k <= parts@[n - 1]@.len(),
                        out@ == mid + parts@[n - 1]@.take(k as int),
                    decreases parts@[n - 1]@.len() - k,
                {
                    out.push(parts[n - 1][k]);
                    k += 1;
                    assert(out@ =~= mid + parts@[n - 1]@.take(k as int));
                }
                assert(charvecs_view(parts@)[n - 2] == parts@[n - 2]@);
                assert(charvecs_view(parts@)[n - 1] == parts@[n - 1]@);
                assert(out@ =~= parts@[n - 2]@ + seq!['.'] + parts@[n - 1]@);
                Some(string_of(out.as_slice()))
            } else {
                None
            }
        },
    }
}

/// The registrable domain of the host of `url`.
pub fn extract_registrable_domain(url: &str) -> (r: Option<String>)
    ensures
        crate::urls::opt_view(r) == match url_parse(url@) {
            Some(u) => match u.host {
                Some(h) => registrable_spec(h, psl_domain(h)),
                None => None,
            },
            None => None,
        },
{
    match parse_url(url) {
        Some(u) => match u.host {
            Some(h) => {
                let d = registrable_domain_bytes(h.as_str());
                registrable_domain_from(h.as_str(), d)
            },
            None => None,
        },
        None => None,
    }
}

} // verus!
