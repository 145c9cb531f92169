use cewl::capture;

#[test]
fn path_components() {
    let c = capture::extract_path_components("http://example.com/blog/post-one.html");
    assert!(c.contains(&"blog".to_string()));
    assert!(c.contains(&"post-one".to_string()));
}

#[test]
fn subdomain_components() {
    let s = capture::extract_subdomain_components("http://sub.example.com/");
    assert!(s.contains(&"sub".to_string()));
}

#[test]
fn registrable_domain() {
    let d = capture::extract_registrable_domain("http://sub.example.com/");
    assert_eq!(d, Some("example.com".to_string()));
}

#[test]
fn path_parts_cleaned_and_short_ones_dropped() {
    assert_eq!(
        capture::path_components("/a/my%20docs/v1.2.tar/x_y-z.html"),
        vec!["my20docs".to_string(), "v12".to_string(), "x_y-z".to_string()]
    );
    assert!(capture::path_components("/").is_empty());
    assert!(capture::extract_path_components("not a url").is_empty());
}

#[test]
fn subdomains_of_deep_host() {
    assert_eq!(
        capture::extract_subdomain_components("https://a.b.example.co.uk/x"),
        vec!["a".to_string(), "b".to_string()]
    );
    assert!(capture::extract_subdomain_components("http://example.com/").is_empty());
}

#[test]
fn registrable_domain_of_public_suffix() {
    assert_eq!(
        capture::extract_registrable_domain("https://a.b.example.co.uk/x"),
        Some("example.co.uk".to_string())
    );
    assert_eq!(capture::extract_registrable_domain("mailto:x@y.z"), None);
}

#[test]
fn registrable_fallback_without_list() {
    assert_eq!(capture::registrable_domain_from("a.b.c", None), Some("b.c".to_string()));
    assert_eq!(capture::registrable_domain_from("localhost", None), None);
    assert_eq!(
        capture::subdomain_components("a.b.c", None),
        vec!["a".to_string()]
    );
}
