//! Orders on strings and counts: sorted lists without duplicates, and
//! entries ranked by count.
use vstd::prelude::*;
use crate::text::{chars_of, strings_view, trim, trim_str, decimal, decimal_chars, push_str_chars, push_chars, string_of};
use crate::counts::{index_map_entries, counts_entries};
use indexmap::IndexMap;

verus! {

broadcast use vstd::string::group_string_axioms;

/// Lexicographic order by code point, the order of `String` comparison
/// (UTF-8 byte order coincides with code point order).
pub open spec fn seq_lt(a: Seq<char>, b: Seq<char>) -> bool
    decreases a.len(),
{
    if a.len() == 0 {
        b.len() > 0
    } else if b.len() == 0 {
        false
    } else if a[0] != b[0] {
        (a[0] as u32) < (b[0] as u32)
    } else {
        seq_lt(a.drop_first(), b.drop_first())
    }
}

pub proof fn lemma_lt_irreflexive(a: Seq<char>)
    ensures
        !seq_lt(a, a),
    decreases a.len(),
{
    if a.len() > 0 {
        lemma_lt_irreflexive(a.drop_first());
    }
}

pub proof fn lemma_lt_transitive(a: Seq<char>, b: Seq<char>, c: Seq<char>)
    requires
        seq_lt(a, b),
        seq_lt(b, c),
    ensures
        seq_lt(a, c),
    decreases a.len(),
{
    if a.len() > 0 && b.len() > 0 && c.len() > 0 {
        if a[0] == b[0] && b[0] == c[0] {
            lemma_lt_transitive(a.drop_first(), b.drop_first(), c.drop_first());
        }
    }
}

pub proof fn lemma_lt_total(a: Seq<char>, b: Seq<char>)
    ensures
        a == b || seq_lt(a, b) || seq_lt(b, a),
    decreases a.len(),
{
    if a.len() > 0 && b.len() > 0 {
        if a[0] == b[0] {
            lemma_lt_total(a.drop_first(), b.drop_first());
            if a.drop_first() == b.drop_first() {
                assert(a =~= seq![a[0]] + a.drop_first());
                assert(b =~= seq![b[0]] + b.drop_first());
            }
        } else {
            vstd::utf8::char_u32_cast(a[0], a[0] as u32);
            vstd::utf8::char_u32_cast(b[0], b[0] as u32);
            assert((a[0] as u32) != (b[0] as u32));
        }
    } else if a.len() == 0 && b.len() == 0 {
        assert(a =~= b);
    }
}

pub proof fn lemma_lt_asymmetric(a: Seq<char>, b: Seq<char>)
    requires
        seq_lt(a, b),
    ensures
        !seq_lt(b, a),
{
    if seq_lt(b, a) {
        lemma_lt_transitive(a, b, a);
        lemma_lt_irreflexive(a);
    }
}

/// `a < b` for the characters of two strings.
pub fn chars_lt(a: &Vec<char>, b: &Vec<char>) -> (r: bool)
    ensures
        r == seq_lt(a@, b@),
{
    let mut i: usize = 0;
    assert(a@.skip(0) =~= a@);
    assert(b@.skip(0) =~= b@);
    while i < a.len() && i < b.len() && a[i] == b[i]
        invariant
            i <= a@.len(),
            i <= b@.len(),
            seq_lt(a@, b@) == seq_lt(a@.skip(i as int), b@.skip(i as int)),
        decreases a.len() - i,
    {
        assert(a@.skip(i as int).drop_first() =~= a@.skip(i + 1));
        assert(b@.skip(i as int).drop_first() =~= b@.skip(i + 1));
        i += 1;
    }
    if i == a.len() {
        i < b.len()
    } else if i == b.len() {
        false
    } else {
        (a[i] as u32) < (b[i] as u32)
    }
}

/// Ascending, and so without duplicates.
pub open spec fn strictly_sorted(s: Seq<Seq<char>>) -> bool {
    forall|i: int, j: int| 0 <= i < j < s.len() ==> seq_lt(#[trigger] s[i], #[trigger] s[j])
}

/// The distinct strings of `v` in ascending order (sort, then dedup).
pub fn sorted_distinct(v: &Vec<String>) -> (r: Vec<String>)
    ensures
        strictly_sorted(strings_view(r@)),
        forall|x: Seq<char>| strings_view(r@).contains(x) <==> strings_view(v@).contains(x),
{
    let mut out: Vec<String> = Vec::new();
    let mut outc: Vec<Vec<char>> = Vec::new();
    let mut i: usize = 0;
    while i < v.len()
        invariant
            i <= v.len(),
            outc@.len() == out@.len(),
            forall|k: int| 0 <= k < out@.len() ==> #[trigger] outc@[k]@ == out@[k]@,
            strictly_sorted(strings_view(out@)),
            forall|x: Seq<char>| strings_view(out@).contains(x) <==> strings_view(v@).take(i as int).contains(x),
        decreases v.len() - i,
    {
        let x = chars_of(v[i].as_str());
        let ghost ov = strings_view(out@);
        let mut pos: usize = 0;
        while pos < outc.len() && chars_lt(&outc[pos], &x)
            invariant
                pos <= outc@.len(),
                outc@.len() == out@.len(),
                ov == strings_view(out@),
                forall|k: int| 0 <= k < out@.len() ==> #[trigger] outc@[k]@ == out@[k]@,
                forall|k: int| 0 <= k < pos ==> seq_lt(#[trigger] ov[k], x@),
            decreases outc.len() - pos,
        {
            pos += 1;
        }
        let ghost xs = x@;
        assert(strings_view(v@).take(i + 1) =~= strings_view(v@).take(i as int).push(v@[i as int]@));
        let ghost vt = strings_view(v@).take(i as int);
        if pos < outc.len() && crate::text::chars_eq(&outc[pos], &x) {
            assert(ov[pos as int] == xs);
            assert forall|y: Seq<char>| strings_view(out@).contains(y) <==> vt.push(xs).contains(y) by {
                if vt.push(xs).contains(y) {
                    let k = choose|k: int| 0 <= k < vt.push(xs).len() && vt.push(xs)[k] == y;
                    if k < vt.len() {
                        assert(vt.contains(y));
                    }
                }
                if vt.contains(y) {
                    let k = choose|k: int| 0 <= k < vt.len() && vt[k] == y;
                    assert(vt.push(xs)[k] == y);
                }
            }
        } else {
            proof {
                assert forall|k: int| pos <= k < ov.len() implies seq_lt(xs, #[trigger] ov[k]) by {
                    lemma_lt_total(ov[pos as int], xs);
                    if k > pos {
                        lemma_lt_transitive(xs, ov[pos as int], ov[k]);
                    }
                }
            }
            let s = v[i].clone();
            let ghost oc = outc@;
            let ghost oo = out@;
            out.insert(pos, s);
            outc.insert(pos, x);
            assert(strings_view(out@) =~= ov.insert(pos as int, xs));
            assert forall|y: Seq<char>| strings_view(out@).contains(y) <==> vt.push(xs).contains(y) by {
                let nv = strings_view(out@);
                if nv.contains(y) {
                    let k = choose|k: int| 0 <= k < nv.len() && nv[k] == y;
                    if k < pos {
                        assert(ov[k] == y);
                        assert(ov.contains(y));
                    } else if k > pos {
                        assert(ov[k - 1] == y);
                        assert(ov.contains(y));
                    }
                    if y != xs {
                        assert(vt.contains(y));
                        let j = choose|j: int| 0 <= j < vt.len() && vt[j] == y;
                        assert(vt.push(xs)[j] == y);
                    } else {
                        assert(vt.push(xs)[vt.len() as int] == y);
                    }
                }
                if vt.push(xs).contains(y) {
                    let k = choose|k: int| 0 <= k < vt.push(xs).len() && vt.push(xs)[k] == y;
                    if k < vt.len() {
                        assert(vt.contains(y));
                        assert(ov.contains(y));
                        let j = choose|j: int| 0 <= j < ov.len() && ov[j] == y;
                        if j < pos {
                            assert(nv[j] == y);
                        } else {
                            assert(nv[j + 1] == y);
                        }
                    } else {
                        assert(nv[pos as int] == y);
                    }
                }
            }
            assert forall|k: int| 0 <= k < out@.len() implies #[trigger] outc@[k]@ == out@[k]@ by {
                if k < pos {
                    assert(outc@[k] == oc[k] && out@[k] == oo[k]);
                } else if k > pos {
                    assert(outc@[k] == oc[k - 1] && out@[k] == oo[k - 1]);
                }
            }
        }
        i += 1;
    }
    assert(strings_view(v@).take(v.len() as int) =~= strings_view(v@));
    out
}

/// Not blank once trimmed.
pub open spec fn nonblank(s: Seq<char>) -> bool {
    trim(s).len() > 0
}

proof fn lemma_filter_contains(s: Seq<Seq<char>>, x: Seq<char>)
    ensures
        s.filter(|y: Seq<char>| nonblank(y)).contains(x) <==> (s.contains(x) && nonblank(x)),
    decreases s.len(),
{
    reveal(Seq::filter);
    if s.len() > 0 {
        let d = s.drop_last();
        lemma_filter_contains(d, x);
        let f = d.filter(|y: Seq<char>| nonblank(y));
        if s.contains(x) && x != s.last() {
            let k = choose|k: int| 0 <= k < s.len() && s[k] == x;
            assert(d[k] == x);
        }
        if d.contains(x) {
            let k = choose|k: int| 0 <= k < d.len() && d[k] == x;
            assert(s[k] == x);
        }
        if nonblank(s.last()) {
            if f.push(s.last()).contains(x) && x != s.last() {
                let k = choose|k: int| 0 <= k < f.push(s.last()).len() && f.push(s.last())[k] == x;
                assert(f[k] == x);
            }
            if f.contains(x) {
                let k = choose|k: int| 0 <= k < f.len() && f[k] == x;
                assert(f.push(s.last())[k] == x);
            }
            assert(f.push(s.last())[f.len() as int] == s.last());
        }
        assert(s[s.len() - 1] == s.last());
    }
}

proof fn lemma_filter_sorted(s: Seq<Seq<char>>)
    requires
        strictly_sorted(s),
    ensures
        strictly_sorted(s.filter(|y: Seq<char>| nonblank(y))),
    decreases s.len(),
{
    reveal(Seq::filter);
    if s.len() > 0 {
        let d = s.drop_last();
        assert(strictly_sorted(d)) by {
            assert forall|i: int, j: int| 0 <= i < j < d.len() implies seq_lt(#[trigger] d[i], #[trigger] d[j]) by {
                assert(d[i] == s[i] && d[j] == s[j]);
            }
        }
        lemma_filter_sorted(d);
        let f = d.filter(|y: Seq<char>| nonblank(y));
        if nonblank(s.last()) {
            let g = f.push(s.last());
            assert forall|i: int, j: int| 0 <= i < j < g.len() implies seq_lt(#[trigger] g[i], #[trigger] g[j]) by {
                if j == f.len() {
                    lemma_filter_contains(d, f[i]);
                    assert(f.contains(f[i]));
                    let k = choose|k: int| 0 <= k < d.len() && d[k] == f[i];
                    assert(s[k] == d[k]);
                    assert(s[s.len() - 1] == s.last());
                } else {
                    assert(g[i] == f[i] && g[j] == f[j]);
                }
            }
        }
    }
}

/// Sorts, removes duplicates and drops the strings that are blank once trimmed.
pub fn tidy_list(v: &Vec<String>) -> (r: Vec<String>)
    ensures
        strictly_sorted(strings_view(r@)),
        forall|x: Seq<char>|
            #![trigger strings_view(r@).contains(x)]
            #![trigger strings_view(v@).contains(x)]
            strings_view(r@).contains(x) <==> (strings_view(v@).contains(x) && nonblank(x)),
{
    let s = sorted_distinct(v);
    let ghost sv = strings_view(s@);
    let mut out: Vec<String> = Vec::new();
    let mut i: usize = 0;
    while i < s.len()
        invariant
            i <= s.len(),
            sv == strings_view(s@),
            strings_view(out@) == sv.take(i as int).filter(|y: Seq<char>| nonblank(y)),
        decreases s.len() - i,
    {
        let ghost t1 = sv.take(i + 1);
        assert(t1.drop_last() =~= sv.take(i as int));
        assert(t1.last() == sv[i as int]);
        reveal(Seq::filter);
        let t = trim_str(s[i].as_str());
        let ghost before = strings_view(out@);
        if !t.as_str().is_empty() {
            out.push(s[i].clone());
            assert(strings_view(out@) =~= before.push(sv[i as int]));
        }
        i += 1;
    }
    assert(sv.take(s.len() as int) =~= sv);
    proof {
        lemma_filter_sorted(sv);
        assert forall|x: Seq<char>| strings_view(out@).contains(x) <==> (strings_view(v@).contains(x) && nonblank(x)) by {
            lemma_filter_contains(sv, x);
        }
    }
    out
}

/// Where a stable descending sort places an entry with count `c`: before the
/// first entry with a smaller count, at or after `i`.
pub open spec fn desc_pos(s: Seq<(Seq<char>, u64)>, c: u64, i: int) -> int
    decreases s.len() - i,
{
    if i < 0 || i >= s.len() {
        s.len() as int
    } else if s[i].1 < c {
        i
    } else {
        desc_pos(s, c, i + 1)
    }
}

/// The entries ordered by count, highest first; equal counts keep their order.
pub open spec fn rank_desc(s: Seq<(Seq<char>, u64)>) -> Seq<(Seq<char>, u64)>
    decreases s.len(),
{
    if s.len() == 0 {
        s
    } else {
        let r = rank_desc(s.drop_last());
        r.insert(desc_pos(r, s.last().1, 0), s.last())
    }
}

pub open spec fn counts_descending(s: Seq<(Seq<char>, u64)>) -> bool {
    forall|i: int, j: int| 0 <= i < j < s.len() ==> #[trigger] s[i].1 >= #[trigger] s[j].1
}

proof fn lemma_desc_pos(s: Seq<(Seq<char>, u64)>, c: u64, i: int)
    requires
        0 <= i <= s.len(),
    ensures
        i <= desc_pos(s, c, i) <= s.len(),
        forall|k: int| i <= k < desc_pos(s, c, i) ==> #[trigger] s[k].1 >= c,
        desc_pos(s, c, i) < s.len() ==> s[desc_pos(s, c, i)].1 < c,
    decreases s.len() - i,
{
    if i < s.len() && s[i].1 >= c {
        lemma_desc_pos(s, c, i + 1);
    }
}

/// The ranking is a reordering of the entries, by count from highest to lowest.
pub proof fn lemma_rank_desc(s: Seq<(Seq<char>, u64)>)
    ensures
        counts_descending(rank_desc(s)),
        rank_desc(s).to_multiset() == s.to_multiset(),
        rank_desc(s).len() == s.len(),
    decreases s.len(),
{
    broadcast use vstd::seq_lib::group_to_multiset_ensures;
    if s.len() > 0 {
        let r = rank_desc(s.drop_last());
        lemma_rank_desc(s.drop_last());
        let x = s.last();
        let p = desc_pos(r, x.1, 0);
        lemma_desc_pos(r, x.1, 0);
        let n = r.insert(p, x);
        assert forall|i: int, j: int| 0 <= i < j < n.len() implies #[trigger] n[i].1 >= #[trigger] n[j].1 by {
            if j < p {
                assert(n[i] == r[i] && n[j] == r[j]);
            } else if j == p {
                assert(n[i] == r[i]);
            } else if i < p {
                assert(n[i] == r[i] && n[j] == r[j - 1]);
                if p < r.len() {
                    assert(r[p].1 < x.1);
                }
            } else if i == p {
                assert(n[j] == r[j - 1]);
                assert(r[p].1 < x.1);
                if j - 1 > p {
                    assert(r[p].1 >= r[j - 1].1);
                }
            } else {
                assert(n[i] == r[i - 1] && n[j] == r[j - 1]);
            }
        }
        vstd::seq_lib::to_multiset_insert(r, p, x);
        assert(s =~= s.drop_last().push(x));
        vstd::seq_lib::to_multiset_build(s.drop_last(), x);
    }
}

pub open spec fn pairs_view(v: Seq<(String, u64)>) -> Seq<(Seq<char>, u64)> {
    v.map_values(|e: (String, u64)| (e.0@, e.1))
}

/// The entries sorted by count, highest first, equal counts in their original
/// order (a stable sort on the reversed count).
pub fn ranked(entries: &Vec<(String, u64)>) -> (r: Vec<(String, u64)>)
    ensures
        pairs_view(r@) == rank_desc(pairs_view(entries@)),
{
    let ghost ev = pairs_view(entries@);
    let mut out: Vec<(String, u64)> = Vec::new();
    let mut i: usize = 0;
    let n = entries.len();
    while i < n
        invariant
            i <= n,
            n == ev.len(),
            ev == pairs_view(entries@),
            pairs_view(out@) == rank_desc(ev.take(i as int)),
        decreases n - i,
    {
        let e = (entries[i].0.clone(), entries[i].1);
        assert((e.0@, e.1) == ev[i as int]);
        let ghost ov = pairs_view(out@);
        let c = e.1;
        let mut pos: usize = 0;
        while pos < out.len() && !(out[pos].1 < c)
            invariant
                pos <= out@.len(),
                ov == pairs_view(out@),
                desc_pos(ov, c, 0) == desc_pos(ov, c, pos as int),
            decreases out.len() - pos,
        {
            pos += 1;
        }
        let ghost et = ev.take(i + 1);
        assert(et.drop_last() =~= ev.take(i as int));
        assert(et.last() == (e.0@, e.1));
        out.insert(pos, e);
        assert(pairs_view(out@) =~= ov.insert(pos as int, et.last()));
        i += 1;
    }
    assert(ev.take(n as int) =~= ev);
    out
}

/// The entries of a count map, highest count first.
pub fn ranked_counts(m: &IndexMap<String, u64>) -> (r: Vec<(String, u64)>)
    ensures
        pairs_view(r@) == rank_desc(index_map_entries(*m)),
{
    let e = counts_entries(m);
    assert(pairs_view(e@) =~= index_map_entries(*m));
    ranked(&e)
}

/// An output line: the word, then `, ` and its count when counts are shown.
pub open spec fn count_line(e: (Seq<char>, u64), with_count: bool) -> Seq<char> {
    if with_count {
        e.0 + ", "@ + decimal(e.1 as nat)
    } else {
        e.0
    }
}

/// The output lines of a word or group list, highest count first.
pub fn count_lines(m: &IndexMap<String, u64>, with_count: bool) -> (r: Vec<String>)
    ensures
        strings_view(r@) == rank_desc(index_map_entries(*m)).map_values(|e: (Seq<char>, u64)| count_line(e, with_count)),
{
    let rk = ranked_counts(m);
    let ghost rv = pairs_view(rk@);
    let mut out: Vec<String> = Vec::new();
    let mut i: usize = 0;
    while i < rk.len()
        invariant
            i <= rk@.len(),
            rv == pairs_view(rk@),
            strings_view(out@) == rv.take(i as int).map_values(|e: (Seq<char>, u64)| count_line(e, with_count)),
        decreases rk.len() - i,
    {
        let mut line: Vec<char> = Vec::new();
        push_str_chars(&mut line, rk[i].0.as_str());
        if with_count {
            push_str_chars(&mut line, ", ");
            let d = decimal_chars(rk[i].1);
            push_chars(&mut line, &d);
        }
        assert(line@ == count_line(rv[i as int], with_count));
        let ghost before = strings_view(out@);
        out.push(string_of(line.as_slice()));
        assert(rv.take(i + 1) =~= rv.take(i as int).push(rv[i as int]));
        assert(strings_view(out@) =~= before.push(count_line(rv[i as int], with_count)));
        i += 1;
    }
    assert(rv.take(rk@.len() as int) =~= rv);
    out
}

/// The lines of a found list (emails or metadata), empty when the list is: on
/// standard output a blank line first when other output came before, then a
/// heading and its rule; then the items.
pub open spec fn section_spec(items: Seq<Seq<char>>, to_file: bool, after_other: bool, heading: Seq<char>, rule: Seq<char>) -> Seq<Seq<char>> {
    if items.len() == 0 {
        Seq::empty()
    } else {
        (if !to_file && after_other {
            seq![Seq::<char>::empty()]
        } else {
            Seq::empty()
        }) + (if !to_file {
            seq![heading, rule]
        } else {
            Seq::empty()
        }) + items
    }
}

fn section_lines(items: &Vec<String>, to_file: bool, after_other: bool, heading: &str, rule: &str) -> (r: Vec<String>)
    ensures
        strings_view(r@) == section_spec(strings_view(items@), to_file, after_other, heading@, rule@),
{
    let mut out: Vec<String> = Vec::new();
    if items.len() == 0 {
        assert(strings_view(out@) =~= Seq::<Seq<char>>::empty());
        return out;
    }
    if !to_file && after_other {
        out.push(String::new());
    }
    if !to_file {
        out.push(heading.to_owned());
        out.push(rule.to_owned());
    }
    let ghost head = strings_view(out@);
    assert(head =~= (if !to_file && after_other {
        seq![Seq::<char>::empty()]
    } else {
        Seq::empty()
    }) + (if !to_file {
        seq![heading@, rule@]
    } else {
        Seq::empty()
    }));
    let mut i: usize = 0;
    while i < items.len()
        invariant
            i <= items@.len(),
            strings_view(out@) == head + strings_view(items@).take(i as int),
        decreases items.len() - i,
    {
        let ghost before = strings_view(out@);
        out.push(items[i].clone());
        assert(strings_view(items@).take(i + 1) =~= strings_view(items@).take(i as int).push(items@[i as int]@));
        assert(strings_view(out@) =~= before.push(items@[i as int]@));
        i += 1;
    }
    assert(strings_view(items@).take(items@.len() as int) =~= strings_view(items@));
    out
}

/// The email section of the report (heading `Email addresses found`).
pub fn email_section(emails: &Vec<String>, to_file: bool, after_words: bool) -> (r: Vec<String>)
    ensures
        strings_view(r@) == section_spec(
            strings_view(emails@),
            to_file,
            after_words,
            "Email addresses found"@,
            "---------------------"@,
        ),
{
    section_lines(emails, to_file, after_words, "Email addresses found", "---------------------")
}

/// The metadata section of the report (heading `Meta data found`).
pub fn meta_section(names: &Vec<String>, to_file: bool, after_other: bool) -> (r: Vec<String>)
    ensures
        strings_view(r@) == section_spec(strings_view(names@), to_file, after_other, "Meta data found"@, "---------------"@),
{
    section_lines(names, to_file, after_other, "Meta data found", "---------------")
}

/// What `fab` prints: the names found, sorted, without duplicates or blanks,
/// one per line; `No data found` when there are none.
pub fn fab_lines(found: &Vec<String>) -> (r: Vec<String>)
    ensures
        (forall|x: Seq<char>| !(strings_view(found@).contains(x) && nonblank(x))) ==> strings_view(r@) == seq![
            "No data found"@,
        ],
        (exists|x: Seq<char>| strings_view(found@).contains(x) && nonblank(x)) ==> {
            &&& strictly_sorted(strings_view(r@))
            &&& forall|x: Seq<char>| strings_view(r@).contains(x) <==> (strings_view(found@).contains(x) && nonblank(x))
        },
{
    let t = tidy_list(found);
    if t.len() == 0 {
        let mut out: Vec<String> = Vec::new();
        out.push("No data found".to_owned());
        assert(strings_view(out@) =~= seq!["No data found"@]);
        assert forall|x: Seq<char>| !(strings_view(found@).contains(x) && nonblank(x)) by {
            if strings_view(found@).contains(x) && nonblank(x) {
                assert(strings_view(t@).contains(x));
            }
        }
        out
    } else {
        assert(strings_view(t@).contains(strings_view(t@)[0]));
        t
    }
}

} // verus!
