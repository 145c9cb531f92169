//! Email addresses in page text.
//!
//! The grammar is `(?i)\b[-A-Z0-9._%+]+@(?:[A-Z0-9](?:[A-Z0-9-]{0,61}[A-Z0-9])?\.)+[A-Z]{2,63}\b`,
//! searched line by line: after an address is found, the search goes on in
//! the rest of the line as a text of its own. Without regard to case, the
//! letter class `[A-Z]` also holds U+017F (LONG S) and U+212A (KELVIN SIGN),
//! and `\b` is a Unicode word boundary.
use vstd::prelude::*;
use crate::text::{chars_of, string_of, is_ascii_alpha, is_ascii_digit, lines_spec, lines_exec, charvecs_view, strings_view, slice_chars};

verus! {

broadcast use vstd::string::group_string_axioms;

/// Whether `regex_syntax::is_word_character` holds of `c` (Unicode `\w`).
pub uninterp spec fn word_character(c: char) -> bool;

/// `regex_syntax::is_word_character`.
#[verifier::external_body]
fn is_word_char(c: char) -> (b: bool)
    ensures
        b == word_character(c),
{
    regex_syntax::is_word_character(c)
}

/// `(?i)[A-Z]`
pub open spec fn fold_letter(c: char) -> bool {
    is_ascii_alpha(c) || c == '\u{17f}' || c == '\u{212a}'
}

/// `(?i)[A-Z0-9]`
pub open spec fn fold_alnum(c: char) -> bool {
    fold_letter(c) || is_ascii_digit(c)
}

/// `(?i)[-A-Z0-9._%+]`
pub open spec fn local_char(c: char) -> bool {
    fold_alnum(c) || c == '-' || c == '.' || c == '_' || c == '%' || c == '+'
}

/// `(?i)[A-Z0-9-]`
pub open spec fn label_char(c: char) -> bool {
    fold_alnum(c) || c == '-'
}

pub open spec fn word_at(s: Seq<char>, i: int) -> bool {
    0 <= i < s.len() && word_character(s[i])
}

/// `\b` at index `i`.
pub open spec fn boundary(s: Seq<char>, i: int) -> bool {
    word_at(s, i - 1) != word_at(s, i)
}

/// The end of the run of characters of class `k` from `i` (0: local part,
/// 1: label, otherwise letters).
pub open spec fn class_char(k: int, c: char) -> bool {
    if k == 0 {
        local_char(c)
    } else if k == 1 {
        label_char(c)
    } else {
        fold_letter(c)
    }
}

pub open spec fn run_end(s: Seq<char>, k: int, i: int) -> int
    decreases s.len() - i,
{
    if 0 <= i < s.len() && class_char(k, s[i]) {
        run_end(s, k, i + 1)
    } else {
        i
    }
}

/// Length of the label at `x` when a label followed by `.` starts there.
pub open spec fn label_len_at(s: Seq<char>, x: int) -> Option<int> {
    let e = run_end(s, 1, x);
    if 1 <= e - x <= 63 && fold_alnum(s[x]) && fold_alnum(s[e - 1]) && e < s.len() && s[e] == '.' {
        Some(e - x)
    } else {
        None
    }
}

/// The positions just after each `label.` of the longest chain starting at `x`.
pub open spec fn label_ends(s: Seq<char>, x: int) -> Seq<int>
    decreases s.len() - x,
{
    if 0 <= x < s.len() {
        match label_len_at(s, x) {
            Some(n) => if n >= 1 {
                seq![x + n + 1] + label_ends(s, x + n + 1)
            } else {
                Seq::empty()
            },
            None => Seq::empty(),
        }
    } else {
        Seq::empty()
    }
}

/// `[A-Z]{2,63}\b` at `y` trying `t` letters, then fewer.
pub open spec fn tld_try(s: Seq<char>, y: int, t: int) -> Option<int>
    decreases t,
{
    if t < 2 {
        None
    } else if boundary(s, y + t) {
        Some(y + t)
    } else {
        tld_try(s, y, t - 1)
    }
}

pub open spec fn tld_end(s: Seq<char>, y: int) -> Option<int> {
    let n = run_end(s, 2, y) - y;
    tld_try(s, y, if n > 63 { 63 } else { n })
}

/// The end of the match when the top level domain follows the `k`-th label at
/// the latest (more labels tried first).
pub open spec fn domain_end(s: Seq<char>, ys: Seq<int>, k: int) -> Option<int>
    decreases k,
{
    if k <= 0 || k > ys.len() {
        None
    } else {
        match tld_end(s, ys[k - 1]) {
            Some(e) => Some(e),
            None => domain_end(s, ys, k - 1),
        }
    }
}

/// Where an address that starts at `p` ends, if one does.
pub open spec fn email_match_at(s: Seq<char>, p: int) -> Option<int> {
    if !(0 <= p < s.len()) || !boundary(s, p) {
        None
    } else {
        let q = run_end(s, 0, p);
        if q == p || q >= s.len() || s[q] != '@' {
            None
        } else {
            let ys = label_ends(s, q + 1);
            domain_end(s, ys, ys.len() as int)
        }
    }
}

/// The class `[-A-Za-z0-9._%+]` of the local part, character by character.
pub open spec fn local_class(c: char) -> bool {
    ||| ('a' <= c && c <= 'z')
    ||| ('A' <= c && c <= 'Z')
    ||| ('0' <= c && c <= '9')
    ||| c == '-'
    ||| c == '.'
    ||| c == '_'
    ||| c == '%'
    ||| c == '+'
}

/// The local part takes exactly the characters of `[-A-Za-z0-9._%+]`, plus
/// the two non-ASCII characters that case-fold to an ASCII letter
/// (U+017F to `s`, U+212A to `k`).
pub proof fn lemma_local_char_exact(c: char)
    ensures
        local_char(c) <==> (local_class(c) || c == '\u{17f}' || c == '\u{212a}'),
{
}

proof fn lemma_local_run(s: Seq<char>, p: int, q: int)
    requires
        0 <= p <= q <= s.len(),
        forall|j: int| p <= j < q ==> local_class(#[trigger] s[j]),
    ensures
        run_end(s, 0, p) == run_end(s, 0, q),
    decreases q - p,
{
    if p < q {
        assert(local_class(s[p]));
        lemma_local_run(s, p + 1, q);
    }
}

/// Every character of `[-A-Za-z0-9._%+]` may stand in the local part: when
/// such characters run from a word boundary at `p` up to an `@` at `q`, the
/// address starting at `p` ends exactly where a domain after that `@` ends
/// (and there is none when no domain follows).
pub proof fn lemma_email_local_part(s: Seq<char>, p: int, q: int)
    requires
        0 <= p < q < s.len(),
        boundary(s, p),
        forall|j: int| p <= j < q ==> local_class(#[trigger] s[j]),
        s[q] == '@',
    ensures
        email_match_at(s, p) == domain_end(s, label_ends(s, q + 1), label_ends(s, q + 1).len() as int),
{
    lemma_local_run(s, p, q);
    assert(run_end(s, 0, q) == q);
}

/// The leftmost address at or after `p`: its start and end.
pub open spec fn first_email(s: Seq<char>, p: int) -> Option<(int, int)>
    decreases s.len() - p,
{
    if p < 0 || p >= s.len() {
        None
    } else {
        match email_match_at(s, p) {
            Some(e) => Some((p, e)),
            None => first_email(s, p + 1),
        }
    }
}

/// The addresses of one line, searching on after each one in the rest of the line.
pub open spec fn emails_in(s: Seq<char>) -> Seq<Seq<char>>
    decreases s.len(),
{
    match first_email(s, 0) {
        Some((a, e)) => if 0 <= a < e <= s.len() {
            seq![s.subrange(a, e)] + emails_in(s.skip(e))
        } else {
            Seq::empty()
        },
        None => Seq::empty(),
    }
}

/// The addresses of every line, in order.
pub open spec fn emails_of_lines(ls: Seq<Seq<char>>) -> Seq<Seq<char>>
    decreases ls.len(),
{
    if ls.len() == 0 {
        Seq::empty()
    } else {
        emails_of_lines(ls.drop_last()) + emails_in(ls.last())
    }
}

/// The addresses in a text.
pub open spec fn emails_of_text(text: Seq<char>) -> Seq<Seq<char>> {
    emails_of_lines(lines_spec(text))
}

} // verus!

verus! {

fn word_flags(s: &Vec<char>) -> (w: Vec<bool>)
    ensures
        w@.len() == s@.len(),
        forall|i: int| 0 <= i < s@.len() ==> w@[i] == word_character(#[trigger] s@[i]),
{
    let mut w: Vec<bool> = Vec::new();
    let mut i: usize = 0;
    while i < s.len()
        invariant
            i <= s.len(),
            w@.len() == i,
            forall|k: int| 0 <= k < i ==> w@[k] == word_character(#[trigger] s@[k]),
        decreases s.len() - i,
    {
        w.push(is_word_char(s[i]));
        i += 1;
    }
    w
}

fn boundary_exec(s: &Vec<char>, w: &Vec<bool>, i: usize) -> (b: bool)
    requires
        w@.len() == s@.len(),
        forall|k: int| 0 <= k < s@.len() ==> w@[k] == word_character(#[trigger] s@[k]),
    ensures
        b == boundary(s@, i as int),
{
    let prev = i > 0 && i - 1 < w.len() && w[i - 1];
    let cur = i < w.len() && w[i];
    prev != cur
}

fn class_char_exec(k: u8, c: char) -> (b: bool)
    ensures
        b == class_char(k as int, c),
{
    let letter = ('a' <= c && c <= 'z') || ('A' <= c && c <= 'Z') || c == '\u{17f}' || c == '\u{212a}';
    let alnum = letter || ('0' <= c && c <= '9');
    if k == 0 {
        alnum || c == '-' || c == '.' || c == '_' || c == '%' || c == '+'
    } else if k == 1 {
        alnum || c == '-'
    } else {
        letter
    }
}

fn run_end_exec(s: &Vec<char>, k: u8, i: usize) -> (r: usize)
    requires
        i <= s@.len(),
    ensures
        r as int == run_end(s@, k as int, i as int),
        i <= r <= s@.len(),
{
    let mut j = i;
    while j < s.len() && class_char_exec(k, s[j])
        invariant
            i <= j <= s@.len(),
            run_end(s@, k as int, i as int) == run_end(s@, k as int, j as int),
        decreases s.len() - j,
    {
        j += 1;
    }
    j
}

proof fn lemma_run_end_bounds(s: Seq<char>, k: int, i: int)
    requires
        0 <= i <= s.len(),
    ensures
        i <= run_end(s, k, i) <= s.len(),
        forall|j: int| i <= j < run_end(s, k, i) ==> class_char(k, #[trigger] s[j]),
    decreases s.len() - i,
{
    if i < s.len() && class_char(k, s[i]) {
        lemma_run_end_bounds(s, k, i + 1);
    }
}

fn fold_alnum_exec(c: char) -> (b: bool)
    ensures
        b == fold_alnum(c),
{
    ('a' <= c && c <= 'z') || ('A' <= c && c <= 'Z') || c == '\u{17f}' || c == '\u{212a}' || ('0' <= c && c <= '9')
}

fn label_len_at_exec(s: &Vec<char>, x: usize) -> (r: Option<usize>)
    requires
        x < s@.len(),
    ensures
        match r {
            Some(n) => label_len_at(s@, x as int) == Some(n as int) && 1 <= n && x + n < s@.len(),
            None => label_len_at(s@, x as int) is None,
        },
{
    let e = run_end_exec(s, 1, x);
    if e - x >= 1 && e - x <= 63 && fold_alnum_exec(s[x]) && fold_alnum_exec(s[e - 1]) && e < s.len() && s[e]
        == '.' {
        Some(e - x)
    } else {
        None
    }
}

fn label_ends_exec(s: &Vec<char>, x0: usize) -> (r: Vec<usize>)
    requires
        x0 <= s@.len(),
    ensures
        r@.map_values(|y: usize| y as int) == label_ends(s@, x0 as int),
        forall|j: int| 0 <= j < r@.len() ==> #[trigger] r@[j] <= s@.len(),
{
    let mut ys: Vec<usize> = Vec::new();
    let mut x = x0;
    loop
        invariant
            x0 <= x <= s@.len(),
            label_ends(s@, x0 as int) == ys@.map_values(|y: usize| y as int) + label_ends(s@, x as int),
            forall|j: int| 0 <= j < ys@.len() ==> #[trigger] ys@[j] <= s@.len(),
        decreases s@.len() - x,
    {
        if x >= s.len() {
            assert(label_ends(s@, x as int) =~= Seq::<int>::empty());
            assert(ys@.map_values(|y: usize| y as int) + Seq::<int>::empty() =~= ys@.map_values(|y: usize| y as int));
            return ys;
        }
        match label_len_at_exec(s, x) {
            Some(n) => {
                let ghost before = ys@.map_values(|y: usize| y as int);
                ys.push(x + n + 1);
                assert(ys@.map_values(|y: usize| y as int) =~= before.push((x + n + 1) as int));
                assert(label_ends(s@, x as int) == seq![(x + n + 1) as int] + label_ends(s@, (x + n + 1) as int));
                assert(before + label_ends(s@, x as int) =~= ys@.map_values(|y: usize| y as int) + label_ends(
                    s@,
                    (x + n + 1) as int,
                ));
                x = x + n + 1;
            },
            None => {
                assert(label_ends(s@, x as int) =~= Seq::<int>::empty());
                assert(ys@.map_values(|y: usize| y as int) + Seq::<int>::empty() =~= ys@.map_values(|y: usize| y as int));
                return ys;
            },
        }
    }
}

fn tld_end_exec(s: &Vec<char>, w: &Vec<bool>, y: usize) -> (r: Option<usize>)
    requires
        y <= s@.len(),
        w@.len() == s@.len(),
        forall|k: int| 0 <= k < s@.len() ==> w@[k] == word_character(#[trigger] s@[k]),
    ensures
        match r {
            Some(e) => tld_end(s@, y as int) == Some(e as int) && e <= s@.len(),
            None => tld_end(s@, y as int) is None,
        },
{
    let e = run_end_exec(s, 2, y);
    let n = e - y;
    let mut t: usize = if n > 63 {
        63
    } else {
        n
    };
    let _n = s.len();
    while t >= 2
        invariant
            _n == s@.len(),
            y + t <= s@.len(),
            w@.len() == s@.len(),
            forall|k: int| 0 <= k < s@.len() ==> w@[k] == word_character(#[trigger] s@[k]),
            tld_end(s@, y as int) == tld_try(s@, y as int, t as int),
        decreases t,
    {
        if boundary_exec(s, w, y + t) {
            return Some(y + t);
        }
        t -= 1;
    }
    None
}

fn email_match_at_exec(s: &Vec<char>, w: &Vec<bool>, p: usize) -> (r: Option<usize>)
    requires
        w@.len() == s@.len(),
        forall|k: int| 0 <= k < s@.len() ==> w@[k] == word_character(#[trigger] s@[k]),
    ensures
        match r {
            Some(e) => email_match_at(s@, p as int) == Some(e as int) && p < e <= s@.len(),
            None => email_match_at(s@, p as int) is None,
        },
{
    if !(p < s.len()) || !boundary_exec(s, w, p) {
        return None;
    }
    let q = run_end_exec(s, 0, p);
    if q == p || q >= s.len() || s[q] != '@' {
        return None;
    }
    let ys = label_ends_exec(s, q + 1);
    let ghost yv = ys@.map_values(|y: usize| y as int);
    let mut k = ys.len();
    assert(email_match_at(s@, p as int) == domain_end(s@, yv, k as int));
    while k > 0
        invariant
            k <= ys@.len(),
            yv == label_ends(s@, q + 1),
            email_match_at(s@, p as int) == domain_end(s@, yv, k as int),
            yv == ys@.map_values(|y: usize| y as int),
            forall|j: int| 0 <= j < ys@.len() ==> #[trigger] ys@[j] <= s@.len(),
            w@.len() == s@.len(),
            forall|i: int| 0 <= i < s@.len() ==> w@[i] == word_character(#[trigger] s@[i]),
            q > p,
            q < s@.len(),
        decreases k,
    {
        assert(yv[k - 1] == ys@[k - 1] as int);
        assert(ys@[k - 1] <= s@.len());
        if let Some(e) = tld_end_exec(s, w, ys[k - 1]) {
            proof {
                lemma_label_ends_after(s@, q + 1);
                assert(yv[k - 1] > q + 1);
                lemma_tld_after(s@, yv[k - 1]);
            }
            return Some(e);
        }
        k -= 1;
    }
    None
}

proof fn lemma_label_ends_after(s: Seq<char>, x: int)
    requires
        0 <= x,
    ensures
        forall|j: int| 0 <= j < label_ends(s, x).len() ==> #[trigger] label_ends(s, x)[j] > x,
    decreases s.len() - x,
{
    if 0 <= x < s.len() {
        if let Some(n) = label_len_at(s, x) {
            if n >= 1 {
                lemma_label_ends_after(s, x + n + 1);
                let tail = label_ends(s, x + n + 1);
                assert forall|j: int| 0 <= j < label_ends(s, x).len() implies #[trigger] label_ends(s, x)[j] > x by {
                    if j > 0 {
                        assert(label_ends(s, x)[j] == tail[j - 1]);
                    }
                }
            }
        }
    }
}

proof fn lemma_tld_try_after(s: Seq<char>, y: int, t: int)
    ensures
        tld_try(s, y, t) matches Some(e) ==> e > y,
    decreases t,
{
    if t >= 2 && !boundary(s, y + t) {
        lemma_tld_try_after(s, y, t - 1);
    }
}

proof fn lemma_tld_after(s: Seq<char>, y: int)
    ensures
        tld_end(s, y) matches Some(e) ==> e > y,
{
    let n = run_end(s, 2, y) - y;
    lemma_tld_try_after(s, y, if n > 63 { 63 } else { n });
}

fn first_email_exec(s: &Vec<char>, w: &Vec<bool>) -> (r: Option<(usize, usize)>)
    requires
        w@.len() == s@.len(),
        forall|k: int| 0 <= k < s@.len() ==> w@[k] == word_character(#[trigger] s@[k]),
    ensures
        match r {
            Some((a, e)) => first_email(s@, 0) == Some((a as int, e as int)) && a < e <= s@.len(),
            None => first_email(s@, 0) is None,
        },
{
    let mut p: usize = 0;
    while p < s.len()
        invariant
            w@.len() == s@.len(),
            forall|k: int| 0 <= k < s@.len() ==> w@[k] == word_character(#[trigger] s@[k]),
            first_email(s@, 0) == first_email(s@, p as int),
        decreases s.len() - p,
    {
        if let Some(e) = email_match_at_exec(s, w, p) {
            return Some((p, e));
        }
        p += 1;
    }
    None
}

fn emails_in_exec(line: &Vec<char>, out: &mut Vec<String>)
    ensures
        strings_view(final(out)@) == strings_view(old(out)@) + emails_in(line@),
{
    let ghost start = strings_view(out@);
    let mut rest = slice_chars(line, 0, line.len());
    assert(rest@ =~= line@);
    assert(start + emails_in(line@) =~= strings_view(out@) + emails_in(rest@));
    loop
        invariant
            start == strings_view(old(out)@),
            strings_view(out@) + emails_in(rest@) == start + emails_in(line@),
        decreases rest@.len(),
    {
        let w = word_flags(&rest);
        match first_email_exec(&rest, &w) {
            Some((a, e)) => {
                let found = slice_chars(&rest, a, e);
                let ghost before = strings_view(out@);
                let ghost fv = found@;
                out.push(string_of(found.as_slice()));
                assert(strings_view(out@) =~= before.push(fv));
                let next = slice_chars(&rest, e, rest.len());
                assert(next@ =~= rest@.skip(e as int));
                assert(emails_in(rest@) == seq![fv] + emails_in(next@));
                assert(before + emails_in(rest@) =~= strings_view(out@) + emails_in(next@));
                rest = next;
            },
            None => {
                assert(emails_in(rest@) =~= Seq::<Seq<char>>::empty());
                assert(strings_view(out@) + emails_in(rest@) =~= strings_view(out@));
                return;
            },
        }
    }
}

/// Every email address in `text`, line by line, in order of appearance.
pub fn extract_emails_from_text(text: &str) -> (r: Vec<String>)
    ensures
        strings_view(r@) == emails_of_text(text@),
{
    let ls = lines_exec(&chars_of(text));
    let ghost lv = charvecs_view(ls@);
    let mut out: Vec<String> = Vec::new();
    let mut i: usize = 0;
    assert(strings_view(out@) =~= emails_of_lines(lv.take(0)));
    while i < ls.len()
        invariant
            i <= ls.len(),
            lv == charvecs_view(ls@),
            strings_view(out@) == emails_of_lines(lv.take(i as int)),
        decreases ls.len() - i,
    {
        let ghost t = lv.take(i + 1);
        assert(t.drop_last() =~= lv.take(i as int));
        assert(t.last() == ls@[i as int]@);
        emails_in_exec(&ls[i], &mut out);
        i += 1;
    }
    assert(lv.take(ls.len() as int) =~= lv);
    out
}

} // verus!
