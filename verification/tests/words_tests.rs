use cewl::words::{count_words, normalize_words};
use indexmap::IndexMap;

#[test]
fn basic_split_and_count() {
    let mut wh = IndexMap::new();
    let mut gh = IndexMap::new();
    count_words("hello world hello", 3, None, &mut wh, -1, &mut gh);
    assert_eq!(*wh.get("hello").unwrap(), 2);
    assert_eq!(*wh.get("world").unwrap(), 1);
}

#[test]
fn min_length_filter() {
    let mut wh = IndexMap::new();
    let mut gh = IndexMap::new();
    count_words("hi hello ok", 3, None, &mut wh, -1, &mut gh);
    assert!(!wh.contains_key("hi"));
    assert!(!wh.contains_key("ok"));
    assert!(wh.contains_key("hello"));
}

#[test]
fn lowercase_flag() {
    let n = normalize_words("Hello WORLD", true, false, false);
    assert!(n.contains("hello"));
    assert!(n.contains("world"));
}

#[test]
fn umlaut_conversion() {
    let n = normalize_words("äöüß", false, false, true);
    assert!(n.contains("ae"));
    assert!(n.contains("oe"));
    assert!(n.contains("ue"));
    assert!(n.contains("ss"));
}

#[test]
fn groups_of_2() {
    let mut wh = IndexMap::new();
    let mut gh = IndexMap::new();
    count_words("the quick brown", 1, None, &mut wh, 2, &mut gh);
    assert!(gh.contains_key("the quick"));
    assert!(gh.contains_key("quick brown"));
}

#[test]
fn max_length_filter_counts_bytes() {
    let mut wh = IndexMap::new();
    let mut gh = IndexMap::new();
    // "ééé" is three characters but six bytes.
    count_words("abc ééé abcdefg", 3, Some(6), &mut wh, 0, &mut gh);
    assert_eq!(wh.get("abc"), Some(&1));
    assert_eq!(wh.get("ééé"), Some(&1));
    assert_eq!(wh.get("abcdefg"), None);
    assert!(gh.is_empty());
}

#[test]
fn counts_keep_first_seen_order() {
    let mut wh = IndexMap::new();
    let mut gh = IndexMap::new();
    count_words("zeta alpha zeta beta alpha zeta", 1, None, &mut wh, 0, &mut gh);
    let entries: Vec<(String, u64)> = wh.iter().map(|(k, v)| (k.clone(), *v)).collect();
    assert_eq!(
        entries,
        vec![("zeta".to_string(), 3), ("alpha".to_string(), 2), ("beta".to_string(), 1)]
    );
}

#[test]
fn counting_twice_adds_up() {
    let mut wh = IndexMap::new();
    let mut gh = IndexMap::new();
    count_words("red green", 1, None, &mut wh, 2, &mut gh);
    count_words("red blue", 1, None, &mut wh, 2, &mut gh);
    assert_eq!(wh.get("red"), Some(&2));
    assert_eq!(wh.get("green"), Some(&1));
    assert_eq!(wh.get("blue"), Some(&1));
    assert_eq!(gh.get("red green"), Some(&1));
    assert_eq!(gh.get("red blue"), Some(&1));
}

#[test]
fn normalize_collapses_separators() {
    assert_eq!(normalize_words("Hello, world! 42x", false, false, false), "Hello world x");
    assert_eq!(normalize_words("Hello, world! 42x", false, true, false), "Hello world 42x");
}

#[test]
fn normalize_lowercases_unicode() {
    assert_eq!(normalize_words("ÄRGER", true, false, true), "aerger");
    // letters outside ASCII are separators
    assert_eq!(normalize_words("ÄRGER", true, false, false), " rger");
}

#[test]
fn normalizing_twice_changes_nothing() {
    for (text, lc, num, uml) in [("Grüße, Welt! 42", false, false, true), ("A-b  c3d", true, true, false)] {
        let once = normalize_words(text, lc, num, uml);
        assert_eq!(normalize_words(&once, lc, num, uml), once);
    }
}
