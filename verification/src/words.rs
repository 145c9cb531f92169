//! Word normalisation and counting.
use vstd::prelude::*;
use indexmap::IndexMap;
use crate::text::{ascii_text, free_of_capitals, lower_seq, chars_of, string_of, to_lowercase, unicode_lowercase, is_ascii_alpha, is_ascii_alnum, is_white_space, is_whitespace, byte_len, byte_len_of};
use crate::counts::{index_map_entries, entries_bump_all, bump_count, counts_at_most, lemma_bump_bound, lemma_entry_index_from};

verus! {

broadcast use vstd::string::group_string_axioms;

/// What `--convert-umlauts` turns one character into.
pub open spec fn umlaut_expansion(c: char) -> Seq<char> {
    if c == 'ä' {
        seq!['a', 'e']
    } else if c == 'ö' {
        seq!['o', 'e']
    } else if c == 'ü' {
        seq!['u', 'e']
    } else if c == 'ß' {
        seq!['s', 's']
    } else if c == 'Ä' {
        seq!['A', 'e']
    } else if c == 'Ö' {
        seq!['O', 'e']
    } else if c == 'Ü' {
        seq!['U', 'e']
    } else {
        seq![c]
    }
}

/// Every umlaut and `ß` of `s` replaced by its two-letter spelling.
pub open spec fn expand_umlauts(s: Seq<char>) -> Seq<char>
    decreases s.len(),
{
    if s.len() == 0 {
        Seq::empty()
    } else {
        expand_umlauts(s.drop_last()) + umlaut_expansion(s.last())
    }
}

/// A character that belongs to a word: an ASCII letter, or with `with_numbers`
/// also an ASCII digit (the ASCII classes `[:alpha:]` and `[:alnum:]`).
pub open spec fn is_word_char(c: char, with_numbers: bool) -> bool {
    if with_numbers {
        is_ascii_alnum(c)
    } else {
        is_ascii_alpha(c)
    }
}

/// Every maximal run of characters that are not word characters replaced by one space.
pub open spec fn collapse_separators(s: Seq<char>, with_numbers: bool) -> Seq<char>
    decreases s.len(),
{
    if s.len() == 0 {
        Seq::empty()
    } else {
        let prev = collapse_separators(s.drop_last(), with_numbers);
        if is_word_char(s.last(), with_numbers) {
            prev.push(s.last())
        } else if s.len() >= 2 && !is_word_char(s[s.len() - 2], with_numbers) {
            prev
        } else {
            prev.push(' ')
        }
    }
}

/// The text that `normalize_words` returns.
pub open spec fn normalized_text(text: Seq<char>, lowercase: bool, with_numbers: bool, convert_umlauts: bool) -> Seq<char> {
    let a = if lowercase {
        unicode_lowercase(text)
    } else {
        text
    };
    let b = if convert_umlauts {
        expand_umlauts(a)
    } else {
        a
    };
    collapse_separators(b, with_numbers)
}

fn expand_umlauts_vec(s: &Vec<char>) -> (r: Vec<char>)
    ensures
        r@ == expand_umlauts(s@),
{
    let mut out: Vec<char> = Vec::new();
    let mut i: usize = 0;
    while i < s.len()
        invariant
            i <= s.len(),
            out@ == expand_umlauts(s@.take(i as int)),
        decreases s.len() - i,
    {
        let c = s[i];
        let ghost before = out@;
        if c == 'ä' {
            out.push('a');
            out.push('e');
        } else if c == 'ö' {
            out.push('o');
            out.push('e');
        } else if c == 'ü' {
            out.push('u');
            out.push('e');
        } else if c == 'ß' {
            out.push('s');
            out.push('s');
        } else if c == 'Ä' {
            out.push('A');
            out.push('e');
        } else if c == 'Ö' {
            out.push('O');
            out.push('e');
        } else if c == 'Ü' {
            out.push('U');
            out.push('e');
        } else {
            out.push(c);
        }
        assert(s@.take(i + 1).drop_last() =~= s@.take(i as int));
        assert(out@ =~= before + umlaut_expansion(c));
        i += 1;
    }
    assert(s@.take(s.len() as int) =~= s@);
    out
}

fn is_word_char_exec(c: char, with_numbers: bool) -> (b: bool)
    ensures
        b == is_word_char(c, with_numbers),
{
    let alpha = ('a' <= c && c <= 'z') || ('A' <= c && c <= 'Z');
    if with_numbers {
        alpha || ('0' <= c && c <= '9')
    } else {
        alpha
    }
}

fn collapse_separators_vec(s: &Vec<char>, with_numbers: bool) -> (r: Vec<char>)
    ensures
        r@ == collapse_separators(s@, with_numbers),
{
    let mut out: Vec<char> = Vec::new();
    let mut i: usize = 0;
    while i < s.len()
        invariant
            i <= s.len(),
            out@ == collapse_separators(s@.take(i as int), with_numbers),
        decreases s.len() - i,
    {
        let c = s[i];
        let ghost t = s@.take(i + 1);
        assert(t.drop_last() =~= s@.take(i as int));
        assert(t.last() == c);
        if is_word_char_exec(c, with_numbers) {
            out.push(c);
        } else if i >= 1 && !is_word_char_exec(s[i - 1], with_numbers) {
            assert(t[t.len() - 2] == s@[i - 1]);
        } else {
            out.push(' ');
        }
        i += 1;
    }
    assert(s@.take(s.len() as int) =~= s@);
    out
}

/// Prepares page text for counting: optional (Unicode) lowercasing, optional
/// umlaut spelling-out, then every run of non-word characters becomes one space.
pub fn normalize_words(text: &str, lowercase: bool, with_numbers: bool, convert_umlauts: bool) -> (r: String)
    ensures
        r@ == normalized_text(text@, lowercase, with_numbers, convert_umlauts),
        normal_form(r@, lowercase, with_numbers),
        normal_form(text@, lowercase, with_numbers) ==> r@ == text@,
{
    let s = if lowercase {
        to_lowercase(text)
    } else {
        text.to_owned()
    };
    proof {
        lemma_normalized_is_normal(text@, lowercase, with_numbers, convert_umlauts);
        if normal_form(text@, lowercase, with_numbers) {
            lemma_normal_form_ascii(text@, lowercase, with_numbers);
            lemma_normal_form_fixed(text@, lowercase, with_numbers, convert_umlauts);
        }
    }
    let cs = chars_of(s.as_str());
    let cs2 = if convert_umlauts {
        expand_umlauts_vec(&cs)
    } else {
        cs
    };
    let out = collapse_separators_vec(&cs2, with_numbers);
    string_of(out.as_slice())
}

} // verus!

verus! {

/// `str::split_whitespace`: the maximal runs of non-whitespace characters.
pub open spec fn split_ws(s: Seq<char>) -> Seq<Seq<char>>
    decreases s.len(),
{
    if s.len() == 0 {
        Seq::empty()
    } else {
        let prev = split_ws(s.drop_last());
        let c = s.last();
        if is_white_space(c) {
            prev
        } else if s.len() >= 2 && !is_white_space(s[s.len() - 2]) {
            prev.update(prev.len() - 1, prev.last().push(c))
        } else {
            prev.push(seq![c])
        }
    }
}

/// A word is counted when its byte length lies within the bounds.
pub open spec fn keep_word(w: Seq<char>, min_len: usize, max_len: Option<usize>) -> bool {
    &&& byte_len(w) >= min_len
    &&& match max_len {
        Some(m) => byte_len(w) <= m,
        None => true,
    }
}

/// The words that pass the length bounds, in order.
pub open spec fn kept_words(ws: Seq<Seq<char>>, min_len: usize, max_len: Option<usize>) -> Seq<Seq<char>>
    decreases ws.len(),
{
    if ws.len() == 0 {
        Seq::empty()
    } else {
        let prev = kept_words(ws.drop_last(), min_len, max_len);
        if keep_word(ws.last(), min_len, max_len) {
            prev.push(ws.last())
        } else {
            prev
        }
    }
}

/// The words joined by single spaces (`[String]::join(" ")`).
pub open spec fn join_words(ws: Seq<Seq<char>>) -> Seq<char>
    decreases ws.len(),
{
    if ws.len() == 0 {
        Seq::empty()
    } else if ws.len() == 1 {
        ws[0]
    } else {
        join_words(ws.drop_last()) + seq![' '] + ws.last()
    }
}

/// Every run of `g` consecutive words, joined by spaces, in order of its last word.
pub open spec fn word_groups(ws: Seq<Seq<char>>, g: nat) -> Seq<Seq<char>>
    decreases ws.len(),
{
    if g == 0 || ws.len() < g {
        Seq::empty()
    } else {
        word_groups(ws.drop_last(), g).push(join_words(ws.skip(ws.len() - g)))
    }
}

/// The counted words of a normalised text.
pub open spec fn counted_words(text: Seq<char>, min_len: usize, max_len: Option<usize>) -> Seq<Seq<char>> {
    kept_words(split_ws(text), min_len, max_len)
}

proof fn lemma_split_ws_len(s: Seq<char>)
    ensures
        split_ws(s).len() <= s.len(),
        s.len() > 0 && !is_white_space(s.last()) ==> split_ws(s).len() > 0,
    decreases s.len(),
{
    if s.len() > 0 {
        lemma_split_ws_len(s.drop_last());
    }
}

proof fn lemma_kept_len(ws: Seq<Seq<char>>, min_len: usize, max_len: Option<usize>)
    ensures
        kept_words(ws, min_len, max_len).len() <= ws.len(),
    decreases ws.len(),
{
    if ws.len() > 0 {
        lemma_kept_len(ws.drop_last(), min_len, max_len);
    }
}

proof fn lemma_groups_len(ws: Seq<Seq<char>>, g: nat)
    ensures
        word_groups(ws, g).len() <= ws.len(),
    decreases ws.len(),
{
    if g != 0 && ws.len() >= g {
        lemma_groups_len(ws.drop_last(), g);
    }
}

/// The counted words, and their groups, are no more than the characters of the text.
pub proof fn lemma_counted_len(text: Seq<char>, min_len: usize, max_len: Option<usize>, g: nat)
    ensures
        counted_words(text, min_len, max_len).len() <= text.len(),
        word_groups(counted_words(text, min_len, max_len), g).len() <= text.len(),
{
    lemma_split_ws_len(text);
    lemma_kept_len(split_ws(text), min_len, max_len);
    lemma_groups_len(counted_words(text, min_len, max_len), g);
}

proof fn lemma_collapse_chars(s: Seq<char>, with_numbers: bool)
    ensures
        forall|i: int| 0 <= i < collapse_separators(s, with_numbers).len() ==> {
            let c = #[trigger] collapse_separators(s, with_numbers)[i];
            is_word_char(c, with_numbers) || c == ' '
        },
        forall|i: int| 0 < i < collapse_separators(s, with_numbers).len() && #[trigger] collapse_separators(s, with_numbers)[i] == ' '
            ==> collapse_separators(s, with_numbers)[i - 1] != ' ',
        collapse_separators(s, with_numbers).len() > 0 && s.len() > 0 ==> (collapse_separators(s, with_numbers).last() == ' '
            <==> !is_word_char(s.last(), with_numbers)),
    decreases s.len(),
{
    if s.len() > 0 {
        let d = s.drop_last();
        lemma_collapse_chars(d, with_numbers);
        let prev = collapse_separators(d, with_numbers);
        let r = collapse_separators(s, with_numbers);
        assert forall|i: int| 0 <= i < r.len() implies {
            let c = #[trigger] r[i];
            is_word_char(c, with_numbers) || c == ' '
        } by {
            if i < prev.len() {
                assert(r[i] == prev[i]);
            }
        }
        assert forall|i: int| 0 < i < r.len() && #[trigger] r[i] == ' ' implies r[i - 1] != ' ' by {
            if i < prev.len() {
                assert(r[i] == prev[i] && r[i - 1] == prev[i - 1]);
            } else {
                assert(!is_word_char(s.last(), with_numbers));
                if i - 1 < prev.len() {
                    assert(r[i - 1] == prev.last());
                    assert(d.last() == s[s.len() - 2]);
                }
            }
        }
    }
}

/// A normalised text holds only word characters (ASCII letters, and digits
/// with `with_numbers`) and single spaces between them.
pub proof fn lemma_normalized_chars(text: Seq<char>, lowercase: bool, with_numbers: bool, convert_umlauts: bool)
    ensures
        forall|i: int| 0 <= i < normalized_text(text, lowercase, with_numbers, convert_umlauts).len() ==> {
            let c = #[trigger] normalized_text(text, lowercase, with_numbers, convert_umlauts)[i];
            is_word_char(c, with_numbers) || c == ' '
        },
        forall|i: int|
            0 < i < normalized_text(text, lowercase, with_numbers, convert_umlauts).len()
                && #[trigger] normalized_text(text, lowercase, with_numbers, convert_umlauts)[i] == ' '
                ==> normalized_text(text, lowercase, with_numbers, convert_umlauts)[i - 1] != ' ',
{
    let a = if lowercase {
        unicode_lowercase(text)
    } else {
        text
    };
    let b = if convert_umlauts {
        expand_umlauts(a)
    } else {
        a
    };
    lemma_collapse_chars(b, with_numbers);
}

proof fn lemma_collapse_fixed(s: Seq<char>, with_numbers: bool)
    requires
        forall|i: int| 0 <= i < s.len() ==> is_word_char(#[trigger] s[i], with_numbers) || s[i] == ' ',
        forall|i: int| 0 < i < s.len() && #[trigger] s[i] == ' ' ==> s[i - 1] != ' ',
    ensures
        collapse_separators(s, with_numbers) == s,
    decreases s.len(),
{
    if s.len() > 0 {
        let d = s.drop_last();
        assert forall|i: int| 0 < i < d.len() && #[trigger] d[i] == ' ' implies d[i - 1] != ' ' by {
            assert(s[i] == d[i] && s[i - 1] == d[i - 1]);
        }
        assert forall|i: int| 0 <= i < d.len() implies is_word_char(#[trigger] d[i], with_numbers) || d[i] == ' ' by {
            assert(s[i] == d[i]);
        }
        lemma_collapse_fixed(d, with_numbers);
        assert(s[s.len() - 1] == s.last());
        if !is_word_char(s.last(), with_numbers) && s.len() >= 2 {
            assert(s.last() == ' ');
            assert(s[s.len() - 2] != ' ');
        }
        assert(d.push(s.last()) =~= s);
    }
}

proof fn lemma_expand_fixed(s: Seq<char>, with_numbers: bool)
    requires
        forall|i: int| 0 <= i < s.len() ==> is_word_char(#[trigger] s[i], with_numbers) || s[i] == ' ',
    ensures
        expand_umlauts(s) == s,
    decreases s.len(),
{
    if s.len() > 0 {
        let d = s.drop_last();
        assert forall|i: int| 0 <= i < d.len() implies is_word_char(#[trigger] d[i], with_numbers) || d[i] == ' ' by {
            assert(s[i] == d[i]);
        }
        lemma_expand_fixed(d, with_numbers);
        assert(s[s.len() - 1] == s.last());
        assert(umlaut_expansion(s.last()) == seq![s.last()]);
        assert(d + seq![s.last()] =~= s);
    }
}

/// The form of a normalised text: word characters and single spaces between
/// them, with no capital letter when lowercasing.
pub open spec fn normal_form(s: Seq<char>, lowercase: bool, with_numbers: bool) -> bool {
    &&& forall|i: int| 0 <= i < s.len() ==> is_word_char(#[trigger] s[i], with_numbers) || s[i] == ' '
    &&& forall|i: int| 0 < i < s.len() && #[trigger] s[i] == ' ' ==> s[i - 1] != ' '
    &&& (lowercase ==> free_of_capitals(s))
}

proof fn lemma_collapse_keeps_free(s: Seq<char>, with_numbers: bool)
    requires
        free_of_capitals(s),
    ensures
        free_of_capitals(collapse_separators(s, with_numbers)),
    decreases s.len(),
{
    if s.len() > 0 {
        let d = s.drop_last();
        assert forall|i: int| 0 <= i < d.len() implies {
            let c = #[trigger] d[i];
            !('A' <= c && c <= 'Z') && c != 'Ä' && c != 'Ö' && c != 'Ü'
        } by {
            assert(d[i] == s[i]);
        }
        lemma_collapse_keeps_free(d, with_numbers);
        assert(s[s.len() - 1] == s.last());
        let prev = collapse_separators(d, with_numbers);
        let r = collapse_separators(s, with_numbers);
        assert forall|i: int| 0 <= i < r.len() implies {
            let c = #[trigger] r[i];
            !('A' <= c && c <= 'Z') && c != 'Ä' && c != 'Ö' && c != 'Ü'
        } by {
            if i < prev.len() {
                assert(r[i] == prev[i]);
            }
        }
    }
}

proof fn lemma_expand_keeps_free(s: Seq<char>)
    requires
        free_of_capitals(s),
    ensures
        free_of_capitals(expand_umlauts(s)),
    decreases s.len(),
{
    if s.len() > 0 {
        let d = s.drop_last();
        assert forall|i: int| 0 <= i < d.len() implies {
            let c = #[trigger] d[i];
            !('A' <= c && c <= 'Z') && c != 'Ä' && c != 'Ö' && c != 'Ü'
        } by {
            assert(d[i] == s[i]);
        }
        lemma_expand_keeps_free(d);
        assert(s[s.len() - 1] == s.last());
        let prev = expand_umlauts(d);
        let e = umlaut_expansion(s.last());
        let r = expand_umlauts(s);
        assert forall|i: int| 0 <= i < r.len() implies {
            let c = #[trigger] r[i];
            !('A' <= c && c <= 'Z') && c != 'Ä' && c != 'Ö' && c != 'Ü'
        } by {
            if i < prev.len() {
                assert(r[i] == prev[i]);
            } else {
                assert(r[i] == e[i - prev.len()]);
            }
        }
    }
}

/// A normalised text is in normal form (when lowercasing, given that the
/// lowercased text has no capitals, which `to_lowercase` guarantees).
pub proof fn lemma_normalized_is_normal(text: Seq<char>, lowercase: bool, with_numbers: bool, convert_umlauts: bool)
    requires
        lowercase ==> free_of_capitals(unicode_lowercase(text)),
    ensures
        normal_form(normalized_text(text, lowercase, with_numbers, convert_umlauts), lowercase, with_numbers),
{
    lemma_normalized_chars(text, lowercase, with_numbers, convert_umlauts);
    if lowercase {
        let l = unicode_lowercase(text);
        lemma_expand_keeps_free(l);
        let b = if convert_umlauts {
            expand_umlauts(l)
        } else {
            l
        };
        lemma_collapse_keeps_free(b, with_numbers);
    }
}

/// A text in normal form comes back unchanged from normalisation (when
/// lowercasing, given that lowercasing acts on it as ASCII lowercasing, as
/// `to_lowercase` guarantees of ASCII text).
pub proof fn lemma_normal_form_fixed(s: Seq<char>, lowercase: bool, with_numbers: bool, convert_umlauts: bool)
    requires
        normal_form(s, lowercase, with_numbers),
        lowercase ==> unicode_lowercase(s) == lower_seq(s),
    ensures
        normalized_text(s, lowercase, with_numbers, convert_umlauts) == s,
{
    if lowercase {
        assert(lower_seq(s) =~= s) by {
            assert forall|i: int| 0 <= i < s.len() implies lower_seq(s)[i] == s[i] by {
                assert(free_of_capitals(s));
                let c = s[i];
                assert(!('A' <= c && c <= 'Z'));
            }
        }
    }
    lemma_expand_fixed(s, with_numbers);
    lemma_collapse_fixed(s, with_numbers);
}

/// Text in normal form is ASCII.
pub proof fn lemma_normal_form_ascii(s: Seq<char>, lowercase: bool, with_numbers: bool)
    requires
        normal_form(s, lowercase, with_numbers),
    ensures
        ascii_text(s),
{
    assert forall|i: int| 0 <= i < s.len() implies (#[trigger] s[i] as u32) < 128 by {
        assert(is_word_char(s[i], with_numbers) || s[i] == ' ');
    }
}

proof fn lemma_kept_words_keep(ws: Seq<Seq<char>>, min_len: usize, max_len: Option<usize>)
    ensures
        forall|i: int| 0 <= i < kept_words(ws, min_len, max_len).len()
            ==> keep_word(#[trigger] kept_words(ws, min_len, max_len)[i], min_len, max_len),
    decreases ws.len(),
{
    if ws.len() > 0 {
        lemma_kept_words_keep(ws.drop_last(), min_len, max_len);
        let prev = kept_words(ws.drop_last(), min_len, max_len);
        let k = kept_words(ws, min_len, max_len);
        assert forall|i: int| 0 <= i < k.len() implies keep_word(#[trigger] k[i], min_len, max_len) by {
            if i < prev.len() {
                assert(k[i] == prev[i]);
            }
        }
    }
}

/// Every counted word lies within the length bounds.
pub proof fn lemma_counted_within_bounds(text: Seq<char>, min_len: usize, max_len: Option<usize>)
    ensures
        forall|i: int| 0 <= i < counted_words(text, min_len, max_len).len()
            ==> keep_word(#[trigger] counted_words(text, min_len, max_len)[i], min_len, max_len),
{
    lemma_kept_words_keep(split_ws(text), min_len, max_len);
}

fn join_with_spaces(ws: &Vec<String>) -> (r: String)
    ensures
        r@ == join_words(ws@.map_values(|s: String| s@)),
{
    let ghost v = ws@.map_values(|s: String| s@);
    let mut out: Vec<char> = Vec::new();
    let mut i: usize = 0;
    while i < ws.len()
        invariant
            i <= ws.len(),
            v == ws@.map_values(|s: String| s@),
            out@ == join_words(v.take(i as int)),
        decreases ws.len() - i,
    {
        let w = chars_of(ws[i].as_str());
        let ghost before = out@;
        if i > 0 {
            out.push(' ');
        }
        let mut j: usize = 0;
        while j < w.len()
            invariant
                j <= w.len(),
                out@ == (if i > 0 { before + seq![' '] } else { before }) + w@.take(j as int),
            decreases w.len() - j,
        {
            out.push(w[j]);
            j += 1;
            assert(out@ =~= (if i > 0 { before + seq![' '] } else { before }) + w@.take(j as int));
        }
        assert(w@.take(w.len() as int) =~= w@);
        let ghost t = v.take(i + 1);
        assert(t.drop_last() =~= v.take(i as int));
        assert(t.last() == w@);
        if i == 0 {
            assert(out@ =~= join_words(t));
        } else {
            assert(out@ =~= join_words(t));
        }
        i += 1;
    }
    assert(v.take(ws.len() as int) =~= v);
    string_of(out.as_slice())
}

/// Counts one word: the word itself, and the group that it completes.
fn record_word(
    word: &Vec<char>,
    min_len: usize,
    max_len: Option<usize>,
    word_hash: &mut IndexMap<String, u64>,
    groups: i32,
    window: &mut Vec<String>,
    group_hash: &mut IndexMap<String, u64>,
    Ghost(kept): Ghost<Seq<Seq<char>>>,
    Ghost(wb): Ghost<int>,
    Ghost(gb): Ghost<int>,
    Ghost(e0): Ghost<Seq<(Seq<char>, u64)>>,
    Ghost(g0): Ghost<Seq<(Seq<char>, u64)>>,
) -> (kept_after: Ghost<Seq<Seq<char>>>)
    requires
        0 <= wb,
        0 <= gb,
        wb + kept.len() < u64::MAX,
        gb + kept.len() < u64::MAX,
        index_map_entries(*old(word_hash)) == entries_bump_all(e0, kept),
        counts_at_most(index_map_entries(*old(word_hash)), wb + kept.len()),
        groups > 0 ==> index_map_entries(*old(group_hash)) == entries_bump_all(g0, word_groups(kept, groups as nat)),
        groups > 0 ==> counts_at_most(index_map_entries(*old(group_hash)), gb + word_groups(kept, groups as nat).len()),
        groups <= 0 ==> index_map_entries(*old(group_hash)) == g0,
        groups > 0 ==> old(window)@.map_values(|s: String| s@) == kept.skip(
            if kept.len() >= groups { kept.len() - groups } else { 0 },
        ),
    ensures
        kept_after@ == (if keep_word(word@, min_len, max_len) { kept.push(word@) } else { kept }),
        index_map_entries(*final(word_hash)) == entries_bump_all(e0, kept_after@),
        counts_at_most(index_map_entries(*final(word_hash)), wb + kept_after@.len()),
        groups > 0 ==> index_map_entries(*final(group_hash)) == entries_bump_all(g0, word_groups(kept_after@, groups as nat)),
        groups > 0 ==> counts_at_most(index_map_entries(*final(group_hash)), gb + word_groups(kept_after@, groups as nat).len()),
        groups <= 0 ==> index_map_entries(*final(group_hash)) == g0,
        groups > 0 ==> final(window)@.map_values(|s: String| s@) == kept_after@.skip(
            if kept_after@.len() >= groups { kept_after@.len() - groups } else { 0 },
        ),
{
    let n = byte_len_of(word.as_slice());
    if n < min_len as u128 {
        return Ghost(kept);
    }
    if let Some(mx) = max_len {
        if n > mx as u128 {
            return Ghost(kept);
        }
    }
    let ghost k2 = kept.push(word@);
    assert(k2.drop_last() =~= kept);
    proof {
        lemma_bump_bound(index_map_entries(*word_hash), word@, wb + kept.len());
        lemma_entry_index_from(index_map_entries(*word_hash), word@, 0);
    }
    let w = string_of(word.as_slice());
    bump_count(word_hash, w);
    if groups > 0 {
        let g = groups as usize;
        let ghost x: int = if kept.len() >= groups { kept.len() - groups } else { 0 };
        let ghost wv_old = window@.map_values(|s: String| s@);
        assert(wv_old == kept.skip(x));
        window.push(string_of(word.as_slice()));
        let ghost mv = wv_old.push(word@);
        assert(window@.map_values(|s: String| s@) =~= mv);
        assert(mv =~= k2.skip(x));
        if window.len() > g {
            let ghost wbefore = window@;
            window.remove(0);
            assert(x == kept.len() - g);
            assert forall|j: int| 0 <= j < window@.len() implies #[trigger] window@[j]@ == k2.skip(k2.len() - g)[j] by {
                assert(window@[j] == wbefore[j + 1]);
                assert(wbefore.map_values(|s: String| s@)[j + 1] == mv[j + 1]);
            }
            assert(window@.map_values(|s: String| s@) =~= k2.skip(k2.len() - g));
        } else {
            assert(window@.map_values(|s: String| s@) =~= k2.skip(
                if k2.len() >= groups { k2.len() - groups } else { 0 },
            ));
        }
        let ghost wv = window@.map_values(|s: String| s@);
        assert(wv.len() == window@.len());
        if window.len() == g {
            let joined = join_with_spaces(window);
            proof {
                assert(k2.len() >= g);
                assert(word_groups(k2, g as nat).drop_last() =~= word_groups(kept, g as nat));
                assert(word_groups(k2, g as nat) == word_groups(kept, g as nat).push(joined@));
                lemma_groups_len(kept, g as nat);
                lemma_bump_bound(index_map_entries(*group_hash), joined@, gb + word_groups(kept, g as nat).len());
                lemma_entry_index_from(index_map_entries(*group_hash), joined@, 0);
            }
            bump_count(group_hash, joined);
        } else {
            assert(k2.len() < g);
            assert(word_groups(k2, g as nat) == word_groups(kept, g as nat));
        }
    }
    Ghost(k2)
}

/// Counts the words of a normalised text: each whitespace-separated word whose
/// byte length lies within `min_len..=max_len` adds one to its count in
/// `word_hash`; with `groups > 0`, every run of `groups` consecutive counted
/// words, joined by spaces, adds one to its count in `group_hash`.
pub fn count_words(
    normalized: &str,
    min_len: usize,
    max_len: Option<usize>,
    word_hash: &mut IndexMap<String, u64>,
    groups: i32,
    group_hash: &mut IndexMap<String, u64>,
)
    requires
        counts_at_most(index_map_entries(*old(word_hash)), u64::MAX - normalized@.len()),
        counts_at_most(index_map_entries(*old(group_hash)), u64::MAX - normalized@.len()),
    ensures
        index_map_entries(*final(word_hash)) == entries_bump_all(
            index_map_entries(*old(word_hash)),
            counted_words(normalized@, min_len, max_len),
        ),
        index_map_entries(*final(group_hash)) == (if groups > 0 {
            entries_bump_all(
                index_map_entries(*old(group_hash)),
                word_groups(counted_words(normalized@, min_len, max_len), groups as nat),
            )
        } else {
            index_map_entries(*old(group_hash))
        }),
{
    let s = chars_of(normalized);
    let ghost e0 = index_map_entries(*word_hash);
    let ghost g0 = index_map_entries(*group_hash);
    let slen = s.len();
    let ghost b: int = u64::MAX - normalized@.len();
    assert(s@.len() == slen);
    let mut window: Vec<String> = Vec::new();
    let mut cur: Vec<char> = Vec::new();
    let ghost mut done: Seq<Seq<char>> = Seq::empty();
    let ghost mut kept: Seq<Seq<char>> = Seq::empty();
    let mut i: usize = 0;
    assert(window@.map_values(|x: String| x@) =~= kept.skip(0));
    while i < s.len()
        invariant
            s@ == normalized@,
            b == u64::MAX - normalized@.len(),
            0 <= b,
            i <= s.len(),
            split_ws(s@.take(i as int)) == (if cur@.len() > 0 { done.push(cur@) } else { done }),
            cur@.len() > 0 <==> (i > 0 && !is_white_space(s@[i - 1])),
            done.len() + (if cur@.len() > 0 { 1int } else { 0int }) <= i,
            kept == kept_words(done, min_len, max_len),
            index_map_entries(*word_hash) == entries_bump_all(e0, kept),
            counts_at_most(index_map_entries(*word_hash), b + kept.len()),
            groups > 0 ==> index_map_entries(*group_hash) == entries_bump_all(g0, word_groups(kept, groups as nat)),
            groups > 0 ==> counts_at_most(index_map_entries(*group_hash), b + word_groups(kept, groups as nat).len()),
            groups <= 0 ==> index_map_entries(*group_hash) == g0,
            groups > 0 ==> window@.map_values(|x: String| x@) == kept.skip(
                if kept.len() >= groups { kept.len() - groups } else { 0 },
            ),
        decreases s.len() - i,
    {
        let c = s[i];
        let ghost t = s@.take(i + 1);
        assert(t.drop_last() =~= s@.take(i as int));
        assert(t.last() == c);
        if is_whitespace(c) {
            if cur.len() > 0 {
                proof {
                    lemma_kept_len(done, min_len, max_len);
                    if groups > 0 {
                        lemma_groups_len(kept, groups as nat);
                    }
                }
                let Ghost(k2) = record_word(&cur, min_len, max_len, word_hash, groups, &mut window, group_hash,
                    Ghost(kept), Ghost(b), Ghost(b), Ghost(e0), Ghost(g0));
                proof {
                    let d2 = done.push(cur@);
                    assert(d2.drop_last() =~= done);
                    done = d2;
                    kept = k2;
                }
                cur = Vec::new();
            }
        } else {
            let ghost prev = cur@;
            if cur.len() > 0 {
                assert(t[t.len() - 2] == s@[i - 1]);
            }
            cur.push(c);
            assert(cur@ =~= prev.push(c));
            assert(prev.len() == 0 ==> cur@ =~= seq![c]);
        }
        i += 1;
    }
    if cur.len() > 0 {
        proof {
            lemma_kept_len(done, min_len, max_len);
            if groups > 0 {
                lemma_groups_len(kept, groups as nat);
            }
        }
        let Ghost(k2) = record_word(&cur, min_len, max_len, word_hash, groups, &mut window, group_hash,
            Ghost(kept), Ghost(b), Ghost(b), Ghost(e0), Ghost(g0));
        proof {
            let d2 = done.push(cur@);
            assert(d2.drop_last() =~= done);
            done = d2;
            kept = k2;
        }
    }
    assert(s@.take(s.len() as int) =~= s@);
}

} // verus!
