//! Ordered word counts held in an `indexmap::IndexMap<String, u64>`.
//!
//! The map is modelled by its entries in insertion order: a sequence of
//! `(key, count)` pairs in which no key occurs twice.
use vstd::prelude::*;
use indexmap::IndexMap;

verus! {

#[verifier::external_type_specification]
#[verifier::external_body]
#[verifier::reject_recursive_types(K)]
#[verifier::reject_recursive_types(V)]
#[verifier::reject_recursive_types(S)]
pub struct ExIndexMap<K, V, S>(IndexMap<K, V, S>);

/// The entries of an `IndexMap<String, u64>` in iteration (insertion) order.
pub uninterp spec fn index_map_entries(m: IndexMap<String, u64>) -> Seq<(Seq<char>, u64)>;

/// Position of the entry with key `k`, searching from index `i`.
pub open spec fn entry_index_from(e: Seq<(Seq<char>, u64)>, k: Seq<char>, i: int) -> Option<int>
    decreases e.len() - i,
{
    if i < 0 || i >= e.len() {
        None
    } else if e[i].0 == k {
        Some(i)
    } else {
        entry_index_from(e, k, i + 1)
    }
}

pub open spec fn entry_index(e: Seq<(Seq<char>, u64)>, k: Seq<char>) -> Option<int> {
    entry_index_from(e, k, 0)
}

/// The count stored under `k`, if any.
pub open spec fn entry_lookup(e: Seq<(Seq<char>, u64)>, k: Seq<char>) -> Option<u64> {
    match entry_index(e, k) {
        Some(i) => Some(e[i].1),
        None => None,
    }
}

/// `IndexMap::insert`: an existing key keeps its place and takes the new value;
/// a new key goes last.
pub open spec fn entry_insert(e: Seq<(Seq<char>, u64)>, k: Seq<char>, v: u64) -> Seq<(Seq<char>, u64)> {
    match entry_index(e, k) {
        Some(i) => e.update(i, (k, v)),
        None => e.push((k, v)),
    }
}

/// `IndexMap::new`: an empty map.
#[verifier::external_body]
pub(crate) fn new_counts() -> (m: IndexMap<String, u64>)
    ensures
        index_map_entries(m) == Seq::<(Seq<char>, u64)>::empty(),
{
    IndexMap::new()
}

/// `IndexMap::get`, copying the count out.
#[verifier::external_body]
pub(crate) fn counts_get(m: &IndexMap<String, u64>, key: &str) -> (r: Option<u64>)
    ensures
        r == entry_lookup(index_map_entries(*m), key@),
{
    m.get(key).copied()
}

/// `IndexMap::insert`.
#[verifier::external_body]
pub(crate) fn counts_insert(m: &mut IndexMap<String, u64>, key: String, value: u64)
    ensures
        index_map_entries(*final(m)) == entry_insert(index_map_entries(*old(m)), key@, value),
{
    m.insert(key, value);
}

/// The entries in iteration order (`IndexMap::iter`, cloned).
#[verifier::external_body]
pub(crate) fn counts_entries(m: &IndexMap<String, u64>) -> (r: Vec<(String, u64)>)
    ensures
        r@.len() == index_map_entries(*m).len(),
        forall|i: int|
            0 <= i < r@.len() ==> (#[trigger] r@[i]).0@ == index_map_entries(*m)[i].0 && r@[i].1
                == index_map_entries(*m)[i].1,
{
    m.iter().map(|(k, v)| (k.clone(), *v)).collect()
}

/// The count after one more occurrence of `k` (absent keys start at 0).
pub open spec fn entries_bump(e: Seq<(Seq<char>, u64)>, k: Seq<char>) -> Seq<(Seq<char>, u64)> {
    match entry_lookup(e, k) {
        Some(c) => entry_insert(e, k, (c + 1) as u64),
        None => entry_insert(e, k, 1),
    }
}

/// One more occurrence of each key of `ks`, in order.
pub open spec fn entries_bump_all(e: Seq<(Seq<char>, u64)>, ks: Seq<Seq<char>>) -> Seq<(Seq<char>, u64)>
    decreases ks.len(),
{
    if ks.len() == 0 {
        e
    } else {
        entries_bump(entries_bump_all(e, ks.drop_last()), ks.last())
    }
}

/// Every count is at most `b`.
pub open spec fn counts_at_most(e: Seq<(Seq<char>, u64)>, b: int) -> bool {
    forall|i: int| 0 <= i < e.len() ==> #[trigger] e[i].1 <= b
}

pub proof fn lemma_entry_index_from(e: Seq<(Seq<char>, u64)>, k: Seq<char>, i: int)
    requires
        0 <= i,
    ensures
        entry_index_from(e, k, i) matches Some(j) ==> i <= j < e.len() && e[j].0 == k,
    decreases e.len() - i,
{
    if i < e.len() && e[i].0 != k {
        lemma_entry_index_from(e, k, i + 1);
    }
}

pub proof fn lemma_bump_bound(e: Seq<(Seq<char>, u64)>, k: Seq<char>, b: int)
    requires
        0 <= b < u64::MAX,
        counts_at_most(e, b),
    ensures
        counts_at_most(entries_bump(e, k), b + 1),
{
    lemma_entry_index_from(e, k, 0);
}


/// The count stored under `k` (0 when absent).
pub open spec fn entry_count(e: Seq<(Seq<char>, u64)>, k: Seq<char>) -> int {
    match entry_lookup(e, k) {
        Some(c) => c as int,
        None => 0,
    }
}

/// How many times `k` occurs in `ks`.
pub open spec fn occurrences(ks: Seq<Seq<char>>, k: Seq<char>) -> int
    decreases ks.len(),
{
    if ks.len() == 0 {
        0
    } else {
        occurrences(ks.drop_last(), k) + if ks.last() == k {
            1int
        } else {
            0int
        }
    }
}

proof fn lemma_index_update_other(e: Seq<(Seq<char>, u64)>, i: int, v: u64, k: Seq<char>, j: int)
    requires
        0 <= i < e.len(),
        e[i].0 != k,
        0 <= j,
    ensures
        entry_index_from(e.update(i, (e[i].0, v)), k, j) == entry_index_from(e, k, j),
    decreases e.len() - j,
{
    if j < e.len() {
        lemma_index_update_other(e, i, v, k, j + 1);
    }
}

proof fn lemma_index_update_same(e: Seq<(Seq<char>, u64)>, i: int, v: u64, k: Seq<char>, j: int)
    requires
        0 <= j <= i,
        entry_index_from(e, k, j) == Some(i),
    ensures
        entry_index_from(e.update(i, (k, v)), k, j) == Some(i),
    decreases i - j,
{
    lemma_entry_index_from(e, k, j);
    if j < i {
        lemma_index_update_same(e, i, v, k, j + 1);
    }
}

proof fn lemma_index_push(e: Seq<(Seq<char>, u64)>, p: (Seq<char>, u64), k: Seq<char>, j: int)
    requires
        0 <= j <= e.len(),
    ensures
        p.0 != k ==> entry_index_from(e.push(p), k, j) == entry_index_from(e, k, j),
        p.0 == k && entry_index_from(e, k, j) is None ==> entry_index_from(e.push(p), k, j) == Some(e.len() as int),
    decreases e.len() - j,
{
    if j < e.len() {
        assert(e.push(p)[j] == e[j]);
        lemma_index_push(e, p, k, j + 1);
    } else {
        assert(e.push(p)[j] == p);
        assert(entry_index_from(e.push(p), k, j + 1) == None::<int>);
    }
}

proof fn lemma_bump_count(e: Seq<(Seq<char>, u64)>, w: Seq<char>, k: Seq<char>)
    requires
        forall|c: u64| entry_lookup(e, w) == Some(c) ==> c < u64::MAX,
    ensures
        entry_count(entries_bump(e, w), k) == entry_count(e, k) + if w == k {
            1int
        } else {
            0int
        },
{
    lemma_entry_index_from(e, w, 0);
    lemma_entry_index_from(e, k, 0);
    match entry_index(e, w) {
        Some(i) => {
            let c = e[i].1;
            if w == k {
                lemma_index_update_same(e, i, (c + 1) as u64, k, 0);
            } else {
                lemma_index_update_other(e, i, (c + 1) as u64, k, 0);
            }
        },
        None => {
            lemma_index_push(e, (w, 1u64), k, 0);
        },
    }
}

/// Counting a list of words adds to each word's count the number of times the
/// word occurs in the list (as long as no count passes `u64::MAX`).
pub proof fn lemma_bump_all_counts(e: Seq<(Seq<char>, u64)>, ks: Seq<Seq<char>>, k: Seq<char>)
    requires
        ks.len() <= u64::MAX,
        counts_at_most(e, u64::MAX - ks.len()),
    ensures
        entry_count(entries_bump_all(e, ks), k) == entry_count(e, k) + occurrences(ks, k),
        counts_at_most(entries_bump_all(e, ks), u64::MAX as int),
    decreases ks.len(),
{
    if ks.len() > 0 {
        let prev = ks.drop_last();
        lemma_bump_all_bound(e, prev, u64::MAX - ks.len());
        lemma_bump_all_counts(e, prev, k);
        let p = entries_bump_all(e, prev);
        lemma_entry_index_from(p, ks.last(), 0);
        lemma_bump_count(p, ks.last(), k);
        lemma_bump_bound(p, ks.last(), u64::MAX - ks.len() + prev.len());
    }
}

pub proof fn lemma_bump_all_bound(e: Seq<(Seq<char>, u64)>, ks: Seq<Seq<char>>, b: int)
    requires
        0 <= b,
        b + ks.len() <= u64::MAX,
        counts_at_most(e, b),
    ensures
        counts_at_most(entries_bump_all(e, ks), b + ks.len()),
    decreases ks.len(),
{
    if ks.len() > 0 {
        lemma_bump_all_bound(e, ks.drop_last(), b);
        lemma_bump_bound(entries_bump_all(e, ks.drop_last()), ks.last(), b + ks.len() - 1);
    }
}

/// Adds one to the count of `key` (`*map.entry(key).or_insert(0) += 1`).
pub fn bump_count(m: &mut IndexMap<String, u64>, key: String)
    requires
        forall|c: u64| entry_lookup(index_map_entries(*old(m)), key@) == Some(c) ==> c < u64::MAX,
    ensures
        index_map_entries(*final(m)) == entries_bump(index_map_entries(*old(m)), key@),
{
    match counts_get(m, key.as_str()) {
        Some(c) => counts_insert(m, key, c + 1),
        None => counts_insert(m, key, 1),
    }
}

} // verus!
