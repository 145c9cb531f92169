use cewl::html;

#[test]
fn base_url_path_empty() {
    let b = html::base_url_for_page("http://example.com");
    assert_eq!(b, "http://example.com");
}

#[test]
fn base_url_path_chop() {
    let b = html::base_url_for_page("http://example.com/path/page.html");
    assert_eq!(b, "http://example.com/path");
}

#[test]
fn extract_hrefs_relative() {
    let page = r#"<a href="/about">About</a>"#;
    let hrefs = html::extract_hrefs(page, "http://example.com/");
    assert!(hrefs.iter().any(|u| u.contains("/about")));
}

#[test]
fn strip_script() {
    let page = "<p>Hello</p><script>alert(1)</script><p>World</p>";
    let stripped = html::strip_scripts_styles_simple(page, false, true);
    assert!(!stripped.contains("alert"));
    assert!(stripped.contains("Hello"));
}

#[test]
fn js_redirect_extract() {
    let body = r#"location.href = "/new-page";"#;
    let v = html::extract_js_redirects(body);
    assert_eq!(v, vec!["/new-page"]);
}

#[test]
fn entity_decode() {
    let decoded = html::decode_html_entities("&amp;hello&lt;world&gt;");
    assert_eq!(decoded, "&hello<world>");
}

#[test]
fn hrefs_resolved_in_document_order() {
    let page = r##"<a href="b.html">b</a><a name="x">no href</a><a href="http://other.org/c">c</a><a href="#">top</a>"##;
    let hrefs = html::extract_hrefs(page, "http://example.com/dir/page.html");
    assert_eq!(
        hrefs,
        vec!["http://example.com/b.html".to_string(), "http://other.org/c".to_string()]
    );
}

#[test]
fn resolve_drops_empty_fragment() {
    assert_eq!(html::resolve_href("http://example.com/a/", "#"), None);
    assert_eq!(
        html::resolve_href("http://example.com/a/", "x#y"),
        Some("http://example.com/a/x#y".to_string())
    );
    assert_eq!(html::resolve_href("not a url", "x"), None);
}

#[test]
fn meta_values_appended() {
    let page = r#"<meta name="Description" content="Nice site"><meta name="keywords" content="alpha, beta"><meta name="keywords" content="">"#;
    assert_eq!(html::extract_meta_append(page), " Nice site alpha, beta");
}

#[test]
fn style_kept_or_stripped() {
    let page = "<style>p{}</style><SCRIPT type=x>go()</SCRIPT>text";
    assert_eq!(html::strip_scripts_styles_simple(page, false, false), "text");
    assert_eq!(html::strip_scripts_styles_simple(page, true, false), "<SCRIPT type=x>go()</SCRIPT>text");
    assert_eq!(html::strip_scripts_styles_simple(page, true, true), page);
}

#[test]
fn alt_then_title_values() {
    let page = r#"<img TITLE="t1" alt="a1"><img alt="a2">"#;
    assert_eq!(html::harvest_alt_title(page), " a1 a2 t1");
}

#[test]
fn comments_and_tags_become_spaces() {
    let mut body = "one<!-- two\nthree -->four".to_string();
    html::strip_comments(&mut body);
    assert_eq!(body, "one four");
    assert_eq!(html::strip_html_tags("<p>a</p><br/>b"), " a  b");
}

#[test]
fn js_redirect_single_quotes_and_case() {
    let v = html::extract_js_redirects("Location.HREF='/x'; location.href = \"/y\" ;");
    assert_eq!(v, vec!["/x".to_string(), "/y".to_string()]);
}

#[test]
fn body_decoded_by_charset() {
    // 0xE9 is 'é' in windows-1252
    let bytes = [b'c', b'a', b'f', 0xE9];
    assert_eq!(html::decode_body_bytes(&bytes, Some("text/html; charset=\"ISO-8859-1\"")), "café");
    // without a charset the bytes are read as UTF-8, invalid bytes replaced
    assert_eq!(html::decode_body_bytes(&bytes, None), "caf\u{FFFD}");
    assert_eq!(html::decode_body_bytes("naïve".as_bytes(), Some("text/html")), "naïve");
}

#[test]
fn stripping_tags_twice_changes_nothing() {
    let once = html::strip_html_tags("<p>Hello</p><p>World</p> a <> b < c");
    assert_eq!(once, " Hello  World  a <> b < c");
    assert_eq!(html::strip_html_tags(&once), once);
    assert_eq!(html::strip_html_tags("no tags here"), "no tags here");
}
