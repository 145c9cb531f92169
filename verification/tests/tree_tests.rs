use cewl::tree::Tree;

fn seeded(max_depth: i32) -> Tree {
    let mut t = Tree::new(None, String::new(), 0, false);
    t.max_depth = max_depth;
    t.push(None, "http://a/".to_string());
    t
}

#[test]
fn tests_seed_pop() {
    let mut t = seeded(2);
    let (prior, url) = t.pop().unwrap();
    assert_eq!(prior, None);
    assert_eq!(url, "http://a/".to_string());
}

#[test]
fn tests_depth1_child() {
    let mut t = seeded(2);
    t.pop();
    t.push(Some("http://a/".to_string()), "http://a/b".to_string());
    let (prior, url) = t.pop().unwrap();
    assert_eq!(prior, Some("http://a/".to_string()));
    assert_eq!(url, "http://a/b".to_string());
}

#[test]
fn tests_depth0_blocks_children() {
    let mut t = seeded(0);
    t.pop();
    t.push(Some("http://a/".to_string()), "http://a/b".to_string());
    assert!(t.pop().is_none());
}

#[test]
fn tests_mailto_bypasses_depth() {
    let mut t = seeded(1);
    t.pop();
    t.push(Some("http://a/".to_string()), "http://a/b".to_string());
    t.pop();
    t.push(Some("http://a/b".to_string()), "mailto:foo@bar.com".to_string());
    let m = t.pop();
    assert!(m.is_some());
}

#[test]
fn tree_seed_pop() {
    let mut t = seeded(2);
    let (prior, url) = t.pop().unwrap();
    assert_eq!(prior, None);
    assert_eq!(url, "http://a/".to_string());
}

#[test]
fn tree_depth1_child() {
    let mut t = seeded(2);
    t.pop();
    t.push(Some("http://a/".to_string()), "http://a/b".to_string());
    let (prior, url) = t.pop().unwrap();
    assert_eq!(prior, Some("http://a/".to_string()));
    assert_eq!(url, "http://a/b".to_string());
}

#[test]
fn tree_depth0_blocks_children() {
    let mut t = seeded(0);
    t.pop();
    t.push(Some("http://a/".to_string()), "http://a/b".to_string());
    assert!(t.pop().is_none());
}

#[test]
fn tree_mailto_bypasses_depth() {
    let mut t = seeded(1);
    t.pop();
    t.push(Some("http://a/".to_string()), "http://a/b".to_string());
    t.pop();
    t.push(Some("http://a/b".to_string()), "mailto:foo@bar.com".to_string());
    let m = t.pop();
    assert!(m.is_some());
}

#[test]
fn empty_after_all_visited() {
    let mut t = seeded(1);
    assert!(!t.empty());
    t.pop();
    assert!(t.empty());
}

#[test]
fn depth_limit_refuses_grandchild() {
    let mut t = seeded(1);
    t.pop();
    t.push(Some("http://a/".to_string()), "http://a/b".to_string());
    t.pop();
    t.push(Some("http://a/b".to_string()), "http://a/c".to_string());
    assert!(t.pop().is_none());
    assert!(t.empty());
}

#[test]
fn unknown_referrer_is_ignored() {
    let mut t = seeded(3);
    t.pop();
    t.push(Some("http://elsewhere/".to_string()), "http://a/x".to_string());
    assert!(t.pop().is_none());
}

#[test]
fn pops_in_push_order() {
    let mut t = seeded(3);
    t.pop();
    t.push(Some("http://a/".to_string()), "http://a/1".to_string());
    t.push(Some("http://a/".to_string()), "http://a/2".to_string());
    t.push(Some("http://a/1".to_string()), "http://a/3".to_string());
    assert_eq!(t.pop().unwrap().1, "http://a/1".to_string());
    assert_eq!(t.pop().unwrap().1, "http://a/2".to_string());
    assert_eq!(t.pop().unwrap().1, "http://a/3".to_string());
    assert!(t.pop().is_none());
}

#[test]
fn can_push_checks_depth_room() {
    let mut t = seeded(3);
    assert!(t.can_push(&None));
    assert!(t.can_push(&Some("http://a/".to_string())));
    t.data.depth = i32::MAX;
    assert!(!t.can_push(&Some("http://a/".to_string())));
    assert!(t.can_push(&Some("http://nowhere/".to_string())));
}
