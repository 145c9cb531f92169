use cewl::order::{count_lines, email_section, fab_lines, meta_section, ranked, sorted_distinct, tidy_list};
use indexmap::IndexMap;

fn strings(v: &[&str]) -> Vec<String> {
    v.iter().map(|s| s.to_string()).collect()
}

#[test]
fn tidy_sorts_dedups_and_drops_blanks() {
    let v = strings(&["b@x.io", "a@x.io", "  ", "b@x.io", "", "B@x.io"]);
    assert_eq!(tidy_list(&v), strings(&["B@x.io", "a@x.io", "b@x.io"]));
    assert_eq!(sorted_distinct(&strings(&["z", "", "a", "z"])), strings(&["", "a", "z"]));
}

#[test]
fn ranking_is_stable_by_count_descending() {
    let entries = vec![
        ("one".to_string(), 1),
        ("three".to_string(), 3),
        ("also_one".to_string(), 1),
        ("two".to_string(), 2),
        ("three_b".to_string(), 3),
    ];
    let r: Vec<String> = ranked(&entries).into_iter().map(|e| e.0).collect();
    assert_eq!(r, strings(&["three", "three_b", "two", "one", "also_one"]));
}

#[test]
fn count_lines_with_and_without_counts() {
    let mut m = IndexMap::new();
    m.insert("apple".to_string(), 2u64);
    m.insert("pear".to_string(), 10u64);
    assert_eq!(count_lines(&m, true), strings(&["pear, 10", "apple, 2"]));
    assert_eq!(count_lines(&m, false), strings(&["pear", "apple"]));
}

#[test]
fn email_section_layout() {
    let e = strings(&["a@b.cd"]);
    assert_eq!(
        email_section(&e, false, true),
        strings(&["", "Email addresses found", "---------------------", "a@b.cd"])
    );
    assert_eq!(email_section(&e, false, false), strings(&["Email addresses found", "---------------------", "a@b.cd"]));
    assert_eq!(email_section(&e, true, true), strings(&["a@b.cd"]));
    assert!(email_section(&Vec::new(), false, true).is_empty());
}

#[test]
fn meta_section_layout() {
    let m = strings(&["Jane", "Bob"]);
    assert_eq!(meta_section(&m, false, true), strings(&["", "Meta data found", "---------------", "Jane", "Bob"]));
    assert_eq!(meta_section(&m, true, false), strings(&["Jane", "Bob"]));
}

#[test]
fn fab_output() {
    assert_eq!(fab_lines(&strings(&[" ", ""])), strings(&["No data found"]));
    assert_eq!(fab_lines(&Vec::new()), strings(&["No data found"]));
    assert_eq!(fab_lines(&strings(&["Bob", "Ann", "Bob"])), strings(&["Ann", "Bob"]));
}
