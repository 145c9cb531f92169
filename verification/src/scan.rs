//! Left-to-right scanners for the small text grammars of the page pipeline:
//! tags, comments, script and style blocks, quoted attributes and
//! `location.href` assignments.
//!
//! Each grammar is given as a `Pattern`: `pattern_match(p, s, i)` is where a
//! match that starts at index `i` ends, if one does. Replacing and capturing
//! scan from the left, take the match at the first index where one starts,
//! and go on after its end (leftmost, non-overlapping matches).
use vstd::prelude::*;
use crate::text::{
    ascii_lower, chars_of, find_char_from, is_white_space, is_whitespace, occurs_at, to_lower_char,
};

verus! {

broadcast use vstd::string::group_string_axioms;

/// `c` matches the (lowercase) pattern character `p` without regard to case:
/// ASCII case, plus the two non-ASCII characters whose simple case folding is
/// an ASCII letter (U+017F LONG S for `s`, U+212A KELVIN SIGN for `k`).
pub open spec fn ci_char_match(c: char, p: char) -> bool {
    ||| ascii_lower(c) == p
    ||| (p == 's' && c == '\u{17f}')
    ||| (p == 'k' && c == '\u{212a}')
}

/// `p` (in lowercase) occurs at index `i` of `s` without regard to case.
pub open spec fn ci_occurs_at(s: Seq<char>, p: Seq<char>, i: int) -> bool {
    &&& 0 <= i
    &&& i + p.len() <= s.len()
    &&& forall|j: int| 0 <= j < p.len() ==> ci_char_match(#[trigger] s[i + j], p[j])
}

/// The first index at or after `start` where `p` occurs without regard to case.
pub open spec fn ci_find_from(s: Seq<char>, p: Seq<char>, start: int) -> Option<int>
    decreases s.len() + 1 - start,
{
    if start < 0 || start + p.len() > s.len() {
        None
    } else if ci_occurs_at(s, p, start) {
        Some(start)
    } else {
        ci_find_from(s, p, start + 1)
    }
}

/// The first index at or after `i` that is not whitespace (or the length).
pub open spec fn skip_ws(s: Seq<char>, i: int) -> int
    decreases s.len() - i,
{
    if 0 <= i < s.len() && is_white_space(s[i]) {
        skip_ws(s, i + 1)
    } else {
        i
    }
}

pub open spec fn is_quote(c: char) -> bool {
    c == '\'' || c == '"'
}

/// The first index at or after `i` holding a quote character.
pub open spec fn find_quote_from(s: Seq<char>, i: int) -> Option<int>
    decreases s.len() - i,
{
    if i < 0 || i >= s.len() {
        None
    } else if is_quote(s[i]) {
        Some(i)
    } else {
        find_quote_from(s, i + 1)
    }
}

/// The grammars of the page pipeline.
#[derive(Clone, Copy)]
pub enum Pattern {
    /// `<[^>]+>`
    Tag,
    /// `(?s)<!--.*?-->`
    Comment,
    /// `(?is)<script[^>]*>.*?</script>`
    Script,
    /// `(?is)<style[^>]*>.*?</style>`
    Style,
}

/// `(?is)<NAME[^>]*>.*?</NAME>`: the opening tag, its first `>`, then the first
/// closing tag after it.
pub open spec fn block_match(s: Seq<char>, i: int, open: Seq<char>, close: Seq<char>) -> Option<int> {
    if ci_occurs_at(s, open, i) {
        match find_char_from(s, '>', i + open.len()) {
            Some(k) => match ci_find_from(s, close, k + 1) {
                Some(j) => Some(j + close.len()),
                None => None,
            },
            None => None,
        }
    } else {
        None
    }
}

/// Where a match of `p` that starts at index `i` of `s` ends.
pub open spec fn pattern_match(p: Pattern, s: Seq<char>, i: int) -> Option<int> {
    match p {
        Pattern::Tag => if 0 <= i < s.len() && s[i] == '<' {
            match find_char_from(s, '>', i + 1) {
                Some(k) => if k >= i + 2 {
                    Some(k + 1)
                } else {
                    None
                },
                None => None,
            }
        } else {
            None
        },
        Pattern::Comment => if occurs_at(s, "<!--"@, i) {
            match crate::text::find_from(s, "-->"@, i + 4) {
                Some(k) => Some(k + 3),
                None => None,
            }
        } else {
            None
        },
        Pattern::Script => block_match(s, i, "<script"@, "</script>"@),
        Pattern::Style => block_match(s, i, "<style"@, "</style>"@),
    }
}

/// `Regex::replace_all` for pattern `p`: every leftmost non-overlapping match in
/// `s[i..]` replaced by `rep`.
pub open spec fn replace_from(p: Pattern, s: Seq<char>, i: int, rep: Seq<char>) -> Seq<char>
    decreases s.len() - i,
{
    if i < 0 || i >= s.len() {
        Seq::empty()
    } else {
        match pattern_match(p, s, i) {
            Some(e) => if i < e <= s.len() {
                rep + replace_from(p, s, e, rep)
            } else {
                seq![s[i]] + replace_from(p, s, i + 1, rep)
            },
            None => seq![s[i]] + replace_from(p, s, i + 1, rep),
        }
    }
}

pub open spec fn replace_all(p: Pattern, s: Seq<char>, rep: Seq<char>) -> Seq<char> {
    replace_from(p, s, 0, rep)
}

/// No `<[^>]+>` match anywhere: after every `<`, the first `>` (if any) comes right away.
pub open spec fn tag_free(r: Seq<char>) -> bool {
    forall|i: int, j: int| 0 <= i < j < r.len() && #[trigger] r[i] == '<' && #[trigger] r[j] == '>' ==> r[i + 1] == '>'
}

proof fn lemma_tag_free_fixed(r: Seq<char>, i: int, rep: Seq<char>)
    requires
        tag_free(r),
        0 <= i <= r.len(),
    ensures
        replace_from(Pattern::Tag, r, i, rep) == r.skip(i),
    decreases r.len() - i,
{
    if i < r.len() {
        lemma_tag_free_fixed(r, i + 1, rep);
        crate::text::lemma_find_char_from(r, '>', i + 1);
        if r[i] == '<' {
            if let Some(k) = find_char_from(r, '>', i + 1) {
                if k >= i + 2 {
                    assert(r[i + 1] == '>');
                }
            }
        }
        assert(r.skip(i) =~= seq![r[i]] + r.skip(i + 1));
    }
}

proof fn lemma_replace_no_close(b: Seq<char>, i: int)
    requires
        0 <= i,
        forall|k: int| i <= k < b.len() ==> b[k] != '>',
    ensures
        forall|k: int| 0 <= k < replace_from(Pattern::Tag, b, i, seq![' ']).len()
            ==> #[trigger] replace_from(Pattern::Tag, b, i, seq![' '])[k] != '>',
    decreases b.len() - i,
{
    if i < b.len() {
        crate::text::lemma_find_char_from(b, '>', i + 1);
        let out = replace_from(Pattern::Tag, b, i, seq![' ']);
        match pattern_match(Pattern::Tag, b, i) {
            Some(e) => {
                if i < e <= b.len() {
                    lemma_replace_no_close(b, e);
                    let rest = replace_from(Pattern::Tag, b, e, seq![' ']);
                    assert forall|k: int| 0 <= k < out.len() implies #[trigger] out[k] != '>' by {
                        if k > 0 {
                            assert(out[k] == rest[k - 1]);
                        }
                    }
                } else {
                    lemma_replace_no_close(b, i + 1);
                    let rest = replace_from(Pattern::Tag, b, i + 1, seq![' ']);
                    assert forall|k: int| 0 <= k < out.len() implies #[trigger] out[k] != '>' by {
                        if k > 0 {
                            assert(out[k] == rest[k - 1]);
                        }
                    }
                }
            },
            None => {
                lemma_replace_no_close(b, i + 1);
                let rest = replace_from(Pattern::Tag, b, i + 1, seq![' ']);
                assert forall|k: int| 0 <= k < out.len() implies #[trigger] out[k] != '>' by {
                    if k > 0 {
                        assert(out[k] == rest[k - 1]);
                    }
                }
            },
        }
    }
}

proof fn lemma_tag_free_cons(c: char, rest: Seq<char>)
    requires
        tag_free(rest),
        c == '<' ==> (rest.len() > 0 && rest[0] == '>') || (forall|k: int| 0 <= k < rest.len() ==> #[trigger] rest[k] != '>'),
    ensures
        tag_free(seq![c] + rest),
{
    let out = seq![c] + rest;
    assert forall|i: int, j: int| 0 <= i < j < out.len() && #[trigger] out[i] == '<' && #[trigger] out[j] == '>' implies out[i + 1] == '>' by {
        if i == 0 {
            assert(out[j] == rest[j - 1]);
            if rest.len() > 0 {
                assert(out[1] == rest[0]);
            }
        } else {
            assert(out[i] == rest[i - 1] && out[j] == rest[j - 1] && out[i + 1] == rest[i]);
        }
    }
}

proof fn lemma_replace_tag_free(b: Seq<char>, i: int)
    requires
        0 <= i,
    ensures
        tag_free(replace_from(Pattern::Tag, b, i, seq![' '])),
    decreases b.len() - i,
{
    if i < b.len() {
        crate::text::lemma_find_char_from(b, '>', i + 1);
        match pattern_match(Pattern::Tag, b, i) {
            Some(e) => {
                if i < e <= b.len() {
                    lemma_replace_tag_free(b, e);
                    lemma_tag_free_cons(' ', replace_from(Pattern::Tag, b, e, seq![' ']));
                    assert(seq![' '] + replace_from(Pattern::Tag, b, e, seq![' ']) == replace_from(Pattern::Tag, b, i, seq![' ']));
                } else {
                    lemma_replace_tag_free(b, i + 1);
                    lemma_tag_free_cons(b[i], replace_from(Pattern::Tag, b, i + 1, seq![' ']));
                }
            },
            None => {
                lemma_replace_tag_free(b, i + 1);
                let rest = replace_from(Pattern::Tag, b, i + 1, seq![' ']);
                if b[i] == '<' {
                    match find_char_from(b, '>', i + 1) {
                        Some(k) => {
                            assert(k == i + 1);
                            assert(b[i + 1] != '<');
                            assert(pattern_match(Pattern::Tag, b, i + 1) is None);
                            assert(rest[0] == '>');
                        },
                        None => {
                            lemma_replace_no_close(b, i + 1);
                        },
                    }
                }
                lemma_tag_free_cons(b[i], rest);
            },
        }
    }
}

/// Stripping tags twice gives what stripping once gives: no `<[^>]+>` match
/// is left after every match was replaced by a space (and a text without any
/// match, such as one without `<`, comes back unchanged).
pub proof fn lemma_strip_tags_idempotent(body: Seq<char>)
    ensures
        tag_free(replace_all(Pattern::Tag, body, seq![' '])),
        replace_all(Pattern::Tag, replace_all(Pattern::Tag, body, seq![' ']), seq![' ']) == replace_all(
            Pattern::Tag,
            body,
            seq![' '],
        ),
{
    let r = replace_all(Pattern::Tag, body, seq![' ']);
    lemma_replace_tag_free(body, 0);
    lemma_tag_free_fixed(r, 0, seq![' ']);
    assert(r.skip(0) =~= r);
}

/// A text without any tag match comes back unchanged from tag stripping.
pub proof fn lemma_strip_tags_keeps_tag_free(r: Seq<char>)
    requires
        tag_free(r),
    ensures
        replace_all(Pattern::Tag, r, seq![' ']) == r,
{
    lemma_tag_free_fixed(r, 0, seq![' ']);
    assert(r.skip(0) =~= r);
}

pub proof fn lemma_ci_find_from(s: Seq<char>, p: Seq<char>, start: int)
    requires
        0 <= start,
    ensures
        ci_find_from(s, p, start) matches Some(k) ==> start <= k && ci_occurs_at(s, p, k) && k + p.len() <= s.len(),
    decreases s.len() + 1 - start,
{
    if start + p.len() <= s.len() && !ci_occurs_at(s, p, start) {
        lemma_ci_find_from(s, p, start + 1);
    }
}

pub proof fn lemma_find_quote_from(s: Seq<char>, start: int)
    requires
        0 <= start,
    ensures
        find_quote_from(s, start) matches Some(k) ==> start <= k < s.len() && is_quote(s[k]),
    decreases s.len() - start,
{
    if start < s.len() && !is_quote(s[start]) {
        lemma_find_quote_from(s, start + 1);
    }
}

pub proof fn lemma_skip_ws(s: Seq<char>, i: int)
    ensures
        i <= skip_ws(s, i),
        0 <= i <= s.len() ==> skip_ws(s, i) <= s.len(),
        0 <= i && skip_ws(s, i) < s.len() ==> !is_white_space(s[skip_ws(s, i)]),
    decreases s.len() - i,
{
    if 0 <= i < s.len() && is_white_space(s[i]) {
        lemma_skip_ws(s, i + 1);
    }
}

fn ci_char_match_exec(c: char, p: char) -> (b: bool)
    ensures
        b == ci_char_match(c, p),
{
    to_lower_char(c) == p || (p == 's' && c == '\u{17f}') || (p == 'k' && c == '\u{212a}')
}

pub fn occurs_at_exec(s: &Vec<char>, p: &Vec<char>, i: usize) -> (b: bool)
    ensures
        b == occurs_at(s@, p@, i as int),
{
    if i > s.len() || p.len() > s.len() - i {
        return false;
    }
    let mut j: usize = 0;
    while j < p.len()
        invariant
            i + p.len() <= s.len(),
            j <= p.len(),
            forall|k: int| 0 <= k < j ==> s@[i + k] == p@[k],
        decreases p.len() - j,
    {
        if s[i + j] != p[j] {
            assert(s@.subrange(i as int, i + p.len())[j as int] != p@[j as int]);
            return false;
        }
        j += 1;
    }
    assert(s@.subrange(i as int, i + p.len()) =~= p@);
    true
}

pub fn ci_occurs_at_exec(s: &Vec<char>, p: &Vec<char>, i: usize) -> (b: bool)
    ensures
        b == ci_occurs_at(s@, p@, i as int),
{
    if i > s.len() || p.len() > s.len() - i {
        return false;
    }
    let mut j: usize = 0;
    while j < p.len()
        invariant
            i + p.len() <= s.len(),
            j <= p.len(),
            forall|k: int| 0 <= k < j ==> ci_char_match(#[trigger] s@[i + k], p@[k]),
        decreases p.len() - j,
    {
        if !ci_char_match_exec(s[i + j], p[j]) {
            return false;
        }
        j += 1;
    }
    true
}

pub fn find_char_from_exec(s: &Vec<char>, c: char, start: usize) -> (r: Option<usize>)
    ensures
        match r {
            Some(k) => find_char_from(s@, c, start as int) == Some(k as int),
            None => find_char_from(s@, c, start as int) is None,
        },
{
    let mut i = start;
    while i < s.len()
        invariant
            start <= i,
            find_char_from(s@, c, start as int) == find_char_from(s@, c, i as int),
        decreases s.len() - i,
    {
        if s[i] == c {
            return Some(i);
        }
        i += 1;
    }
    None
}

pub fn find_from_exec(s: &Vec<char>, p: &Vec<char>, start: usize) -> (r: Option<usize>)
    ensures
        match r {
            Some(k) => crate::text::find_from(s@, p@, start as int) == Some(k as int),
            None => crate::text::find_from(s@, p@, start as int) is None,
        },
{
    let mut i = start;
    while i <= s.len() && p.len() <= s.len() - i
        invariant
            start <= i,
            crate::text::find_from(s@, p@, start as int) == crate::text::find_from(s@, p@, i as int),
        decreases s.len() + 1 - i,
    {
        if occurs_at_exec(s, p, i) {
            return Some(i);
        }
        if i == s.len() {
            assert(s@.subrange(i as int, i as int) =~= p@);
            return None;
        }
        i += 1;
    }
    None
}

pub fn ci_find_from_exec(s: &Vec<char>, p: &Vec<char>, start: usize) -> (r: Option<usize>)
    ensures
        match r {
            Some(k) => ci_find_from(s@, p@, start as int) == Some(k as int),
            None => ci_find_from(s@, p@, start as int) is None,
        },
{
    let mut i = start;
    while i <= s.len() && p.len() <= s.len() - i
        invariant
            start <= i,
            ci_find_from(s@, p@, start as int) == ci_find_from(s@, p@, i as int),
        decreases s.len() + 1 - i,
    {
        if ci_occurs_at_exec(s, p, i) {
            return Some(i);
        }
        if i == s.len() {
            return None;
        }
        i += 1;
    }
    None
}

pub fn skip_ws_exec(s: &Vec<char>, i: usize) -> (r: usize)
    ensures
        r as int == skip_ws(s@, i as int),
        i <= r,
{
    let mut j = i;
    while j < s.len() && is_whitespace(s[j])
        invariant
            i <= j,
            skip_ws(s@, i as int) == skip_ws(s@, j as int),
        decreases s.len() - j,
    {
        j += 1;
    }
    j
}

pub fn find_quote_from_exec(s: &Vec<char>, start: usize) -> (r: Option<usize>)
    ensures
        match r {
            Some(k) => find_quote_from(s@, start as int) == Some(k as int),
            None => find_quote_from(s@, start as int) is None,
        },
{
    let mut i = start;
    while i < s.len()
        invariant
            start <= i,
            find_quote_from(s@, start as int) == find_quote_from(s@, i as int),
        decreases s.len() - i,
    {
        if s[i] == '\'' || s[i] == '"' {
            return Some(i);
        }
        i += 1;
    }
    None
}

/// The grammars whose matches hand out a captured part.
#[derive(Clone, Copy)]
pub enum CapturePattern {
    /// `(?i)alt="([^"]*)"`
    Alt,
    /// `(?i)title="([^"]*)"`
    Title,
    /// `(?i)(location\.href\s*=\s*['"])([^'"]*)(['"]\s*;)`, capturing the middle group
    JsRedirect,
}

/// `(?i)NAME="([^"]*)"`: the attribute opening, then everything up to the next `"`.
pub open spec fn quoted_attr_match(s: Seq<char>, i: int, open: Seq<char>) -> Option<(int, int, int)> {
    if ci_occurs_at(s, open, i) {
        match find_char_from(s, '"', i + open.len()) {
            Some(k) => Some((k + 1, i + open.len(), k)),
            None => None,
        }
    } else {
        None
    }
}

/// An `alt="..."` or `title="..."` match captures the whole quoted value:
/// the value starts right after the opening quote and ends at the first `"`
/// after it (so it holds no `"`, whatever spaces it holds), and the match
/// ends just past that closing quote.
pub proof fn lemma_attr_value_whole(s: Seq<char>, i: int, title: bool)
    ensures
        ({
            let p = if title {
                CapturePattern::Title
            } else {
                CapturePattern::Alt
            };
            let open = if title {
                "title=\""@
            } else {
                "alt=\""@
            };
            capture_match(p, s, i) matches Some((e, a, b)) ==> {
                &&& ci_occurs_at(s, open, i)
                &&& a == i + open.len()
                &&& a <= b < s.len()
                &&& s[b] == '"'
                &&& (forall|k: int| a <= k < b ==> s[k] != '"')
                &&& e == b + 1
            }
        }),
{
    let open = if title {
        "title=\""@
    } else {
        "alt=\""@
    };
    if ci_occurs_at(s, open, i) {
        crate::text::lemma_find_char_from(s, '"', i + open.len());
    }
}

/// `location.href`, optional whitespace, `=`, optional whitespace, a quote, the
/// target up to the next quote of either kind, optional whitespace, `;`.
pub open spec fn js_redirect_match(s: Seq<char>, i: int) -> Option<(int, int, int)> {
    if ci_occurs_at(s, "location.href"@, i) {
        let j = skip_ws(s, i + "location.href"@.len());
        if j < s.len() && s[j] == '=' {
            let j2 = skip_ws(s, j + 1);
            if j2 < s.len() && is_quote(s[j2]) {
                match find_quote_from(s, j2 + 1) {
                    Some(k) => {
                        let k2 = skip_ws(s, k + 1);
                        if k2 < s.len() && s[k2] == ';' {
                            Some((k2 + 1, j2 + 1, k))
                        } else {
                            None
                        }
                    },
                    None => None,
                }
            } else {
                None
            }
        } else {
            None
        }
    } else {
        None
    }
}

/// A match of `p` starting at `i`: `(end, capture start, capture end)`.
pub open spec fn capture_match(p: CapturePattern, s: Seq<char>, i: int) -> Option<(int, int, int)> {
    match p {
        CapturePattern::Alt => quoted_attr_match(s, i, "alt=\""@),
        CapturePattern::Title => quoted_attr_match(s, i, "title=\""@),
        CapturePattern::JsRedirect => js_redirect_match(s, i),
    }
}

/// `Regex::captures_iter` for `p` on `s[i..]`, keeping the captured part of each match.
pub open spec fn captures_from(p: CapturePattern, s: Seq<char>, i: int) -> Seq<Seq<char>>
    decreases s.len() - i,
{
    if i < 0 || i >= s.len() {
        Seq::empty()
    } else {
        match capture_match(p, s, i) {
            Some((e, a, b)) => if i < e <= s.len() && i <= a <= b <= s.len() {
                seq![s.subrange(a, b)] + captures_from(p, s, e)
            } else {
                captures_from(p, s, i + 1)
            },
            None => captures_from(p, s, i + 1),
        }
    }
}

pub open spec fn captures_all(p: CapturePattern, s: Seq<char>) -> Seq<Seq<char>> {
    captures_from(p, s, 0)
}

/// The literal pieces of the patterns, as character vectors.
pub struct Needles {
    pub comment_open: Vec<char>,
    pub comment_close: Vec<char>,
    pub script_open: Vec<char>,
    pub script_close: Vec<char>,
    pub style_open: Vec<char>,
    pub style_close: Vec<char>,
    pub alt_open: Vec<char>,
    pub title_open: Vec<char>,
    pub location_href: Vec<char>,
}

impl Needles {
    pub open spec fn wf(&self) -> bool {
        &&& self.comment_open@ == "<!--"@
        &&& self.comment_close@ == "-->"@
        &&& self.script_open@ == "<script"@
        &&& self.script_close@ == "</script>"@
        &&& self.style_open@ == "<style"@
        &&& self.style_close@ == "</style>"@
        &&& self.alt_open@ == "alt=\""@
        &&& self.title_open@ == "title=\""@
        &&& self.location_href@ == "location.href"@
    }

    pub fn new() -> (n: Self)
        ensures
            n.wf(),
    {
        Needles {
            comment_open: chars_of("<!--"),
            comment_close: chars_of("-->"),
            script_open: chars_of("<script"),
            script_close: chars_of("</script>"),
            style_open: chars_of("<style"),
            style_close: chars_of("</style>"),
            alt_open: chars_of("alt=\""),
            title_open: chars_of("title=\""),
            location_href: chars_of("location.href"),
        }
    }
}

fn block_match_exec(s: &Vec<char>, i: usize, open: &Vec<char>, close: &Vec<char>) -> (r: Option<usize>)
    ensures
        match r {
            Some(e) => block_match(s@, i as int, open@, close@) == Some(e as int) && i < e <= s.len(),
            None => block_match(s@, i as int, open@, close@) is None,
        },
{
    if !ci_occurs_at_exec(s, open, i) {
        return None;
    }
    let _slen = s.len();
    match find_char_from_exec(s, '>', i + open.len()) {
        Some(k) => {
            proof {
                crate::text::lemma_find_char_from(s@, '>', i + open.len());
            }
            match ci_find_from_exec(s, close, k + 1) {
                Some(j) => {
                    proof {
                        lemma_ci_find_from(s@, close@, k + 1);
                    }
                    Some(j + close.len())
                },
                None => None,
            }
        },
        None => None,
    }
}

/// Where a match of `p` starting at `i` ends (always after `i`).
pub fn pattern_match_exec(p: Pattern, s: &Vec<char>, i: usize, nd: &Needles) -> (r: Option<usize>)
    requires
        nd.wf(),
    ensures
        match r {
            Some(e) => pattern_match(p, s@, i as int) == Some(e as int) && i < e <= s.len(),
            None => pattern_match(p, s@, i as int) is None,
        },
{
    let _slen = s.len();
    match p {
        Pattern::Tag => {
            if i < s.len() && s[i] == '<' {
                match find_char_from_exec(s, '>', i + 1) {
                    Some(k) => {
                        proof {
                            crate::text::lemma_find_char_from(s@, '>', i + 1);
                        }
                        if k >= i + 2 {
                            Some(k + 1)
                        } else {
                            None
                        }
                    },
                    None => None,
                }
            } else {
                None
            }
        },
        Pattern::Comment => {
            proof {
                reveal_strlit("<!--");
                reveal_strlit("-->");
            }
            if occurs_at_exec(s, &nd.comment_open, i) {
                match find_from_exec(s, &nd.comment_close, i + 4) {
                    Some(k) => {
                        proof {
                            crate::text::lemma_find_from(s@, "-->"@, i + 4);
                        }
                        Some(k + 3)
                    },
                    None => None,
                }
            } else {
                None
            }
        },
        Pattern::Script => block_match_exec(s, i, &nd.script_open, &nd.script_close),
        Pattern::Style => block_match_exec(s, i, &nd.style_open, &nd.style_close),
    }
}

fn quoted_attr_match_exec(s: &Vec<char>, i: usize, open: &Vec<char>) -> (r: Option<(usize, usize, usize)>)
    ensures
        match r {
            Some((e, a, b)) => quoted_attr_match(s@, i as int, open@) == Some((e as int, a as int, b as int)) && i
                < e <= s.len() && i <= a <= b <= s.len(),
            None => quoted_attr_match(s@, i as int, open@) is None,
        },
{
    let _slen = s.len();
    if !ci_occurs_at_exec(s, open, i) {
        return None;
    }
    match find_char_from_exec(s, '"', i + open.len()) {
        Some(k) => {
            proof {
                crate::text::lemma_find_char_from(s@, '"', i + open.len());
            }
            Some((k + 1, i + open.len(), k))
        },
        None => None,
    }
}

fn js_redirect_match_exec(s: &Vec<char>, i: usize, nd: &Needles) -> (r: Option<(usize, usize, usize)>)
    requires
        nd.wf(),
    ensures
        match r {
            Some((e, a, b)) => js_redirect_match(s@, i as int) == Some((e as int, a as int, b as int)) && i < e
                <= s.len() && i <= a <= b <= s.len(),
            None => js_redirect_match(s@, i as int) is None,
        },
{
    let _slen = s.len();
    if !ci_occurs_at_exec(s, &nd.location_href, i) {
        return None;
    }
    let j = skip_ws_exec(s, i + nd.location_href.len());
    proof {
        lemma_skip_ws(s@, i + nd.location_href@.len());
    }
    if !(j < s.len() && s[j] == '=') {
        return None;
    }
    let j2 = skip_ws_exec(s, j + 1);
    proof {
        lemma_skip_ws(s@, j + 1);
    }
    if !(j2 < s.len() && (s[j2] == '\'' || s[j2] == '"')) {
        return None;
    }
    match find_quote_from_exec(s, j2 + 1) {
        Some(k) => {
            proof {
                lemma_find_quote_from(s@, j2 + 1);
                lemma_skip_ws(s@, k + 1);
            }
            let k2 = skip_ws_exec(s, k + 1);
            if k2 < s.len() && s[k2] == ';' {
                Some((k2 + 1, j2 + 1, k))
            } else {
                None
            }
        },
        None => None,
    }
}

pub fn capture_match_exec(p: CapturePattern, s: &Vec<char>, i: usize, nd: &Needles) -> (r: Option<(usize, usize, usize)>)
    requires
        nd.wf(),
    ensures
        match r {
            Some((e, a, b)) => capture_match(p, s@, i as int) == Some((e as int, a as int, b as int)) && i < e
                <= s.len() && i <= a <= b <= s.len(),
            None => capture_match(p, s@, i as int) is None,
        },
{
    match p {
        CapturePattern::Alt => quoted_attr_match_exec(s, i, &nd.alt_open),
        CapturePattern::Title => quoted_attr_match_exec(s, i, &nd.title_open),
        CapturePattern::JsRedirect => js_redirect_match_exec(s, i, nd),
    }
}

/// The captured part of every leftmost non-overlapping match of `p` in `s`.
pub fn captures_exec(p: CapturePattern, s: &Vec<char>, nd: &Needles) -> (r: Vec<Vec<char>>)
    requires
        nd.wf(),
    ensures
        r@.map_values(|v: Vec<char>| v@) == captures_all(p, s@),
{
    let mut out: Vec<Vec<char>> = Vec::new();
    let mut i: usize = 0;
    while i < s.len()
        invariant
            nd.wf(),
            i <= s.len(),
            out@.map_values(|v: Vec<char>| v@) + captures_from(p, s@, i as int) == captures_all(p, s@),
        decreases s.len() - i,
    {
        let ghost before = out@.map_values(|v: Vec<char>| v@);
        match capture_match_exec(p, s, i, nd) {
            Some((e, a, b)) => {
                let mut cap: Vec<char> = Vec::new();
                let mut j = a;
                while j < b
                    invariant
                        a <= j <= b,
                        b <= s.len(),
                        cap@ == s@.subrange(a as int, j as int),
                    decreases b - j,
                {
                    cap.push(s[j]);
                    j += 1;
                    assert(cap@ =~= s@.subrange(a as int, j as int));
                }
                out.push(cap);
                assert(out@.map_values(|v: Vec<char>| v@) =~= before.push(s@.subrange(a as int, b as int)));
                assert(before + captures_from(p, s@, i as int) =~= out@.map_values(|v: Vec<char>| v@)
                    + captures_from(p, s@, e as int));
                i = e;
            },
            None => {
                i += 1;
            },
        }
    }
    assert(out@.map_values(|v: Vec<char>| v@) =~= out@.map_values(|v: Vec<char>| v@) + captures_from(p, s@, i as int));
    out
}

/// Replaces every leftmost non-overlapping match of `p` in `s` by `rep`.
pub fn replace_all_exec(p: Pattern, s: &Vec<char>, rep: &Vec<char>, nd: &Needles) -> (r: Vec<char>)
    requires
        nd.wf(),
    ensures
        r@ == replace_all(p, s@, rep@),
{
    let mut out: Vec<char> = Vec::new();
    let mut i: usize = 0;
    while i < s.len()
        invariant
            nd.wf(),
            i <= s.len(),
            out@ + replace_from(p, s@, i as int, rep@) == replace_all(p, s@, rep@),
        decreases s.len() - i,
    {
        let ghost before = out@;
        match pattern_match_exec(p, s, i, nd) {
            Some(e) => {
                let mut j: usize = 0;
                while j < rep.len()
                    invariant
                        j <= rep.len(),
                        out@ == before + rep@.take(j as int),
                    decreases rep.len() - j,
                {
                    out.push(rep[j]);
                    j += 1;
                    assert(out@ =~= before + rep@.take(j as int));
                }
                assert(rep@.take(rep.len() as int) =~= rep@);
                assert(before + replace_from(p, s@, i as int, rep@) =~= out@ + replace_from(p, s@, e as int, rep@));
                i = e;
            },
            None => {
                out.push(s[i]);
                assert(before + replace_from(p, s@, i as int, rep@) =~= out@ + replace_from(p, s@, i + 1, rep@));
                i += 1;
            },
        }
    }
    assert(out@ =~= out@ + replace_from(p, s@, i as int, rep@));
    out
}

} // verus!
