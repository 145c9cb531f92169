use cewl::fetcher::{
    browser_response, digest_uri, fetch_permits, first_response_step, is_binary_type, launch_args, launch_headed,
    redirect_target, static_step, BrowserCfg, FetchOutcome, RenderWait, StaticConfig, StaticStep,
};

fn cfg() -> BrowserCfg {
    BrowserCfg {
        browser_path: None,
        user_data_dir: None,
        profile_directory: None,
        headed: false,
        no_sandbox: false,
        user_agent: None,
        proxy: None,
        insecure: false,
        render_wait: RenderWait::DomContentLoaded,
        render_timeout: 20,
        human_in_loop: false,
        human_timeout: 300,
        concurrency: 0,
        extra_headers: Vec::new(),
    }
}

fn response(ct: Option<&str>) -> FetchOutcome {
    FetchOutcome::Response {
        final_url: "http://a/".to_string(),
        status: 200,
        content_type: ct.map(|s| s.to_string()),
        body: Vec::new(),
    }
}

#[test]
fn render_wait_parse() {
    assert_eq!(RenderWait::parse("load"), RenderWait::Load);
    assert_eq!(RenderWait::parse("networkidle"), RenderWait::NetworkIdle);
    assert_eq!(RenderWait::parse("LOAD"), RenderWait::DomContentLoaded);
}

#[test]
fn content_type_checks() {
    assert!(response(None).is_htmlish());
    assert!(response(Some("Text/HTML; charset=utf-8")).is_htmlish());
    assert!(!response(Some("application/pdf")).is_htmlish());
    assert!(response(Some("application/PDF")).is_binary_content_type());
    assert!(!response(None).is_binary_content_type());
    assert!(!FetchOutcome::Unauthorized.is_htmlish());
    assert!(is_binary_type("application/vnd.openxmlformats-officedocument.wordprocessingml.document"));
    assert!(!is_binary_type("text/html"));
}

#[test]
fn outcome_parts() {
    let o = browser_response("http://a/x", None, "<p>hé</p>".to_string(), vec!["http://a/s.js".to_string()]);
    assert_eq!(o.discovered_urls(), &["http://a/s.js".to_string()]);
    match o.body_and_url() {
        Some((url, body, ct)) => {
            assert_eq!(url, "http://a/x");
            assert_eq!(body, "<p>hé</p>".as_bytes().to_vec());
            assert_eq!(ct, Some("text/html; charset=utf-8".to_string()));
        },
        None => panic!("a browser response has a body"),
    }
    let r = FetchOutcome::Redirect { from: "a".to_string(), to: "b".to_string() };
    assert!(r.discovered_urls().is_empty());
    assert!(r.body_and_url().is_none());
    let o2 = browser_response("http://a/x", Some("http://a/final".to_string()), String::new(), Vec::new());
    assert_eq!(o2.body_and_url().unwrap().0, "http://a/final");
}

#[test]
fn browser_settings() {
    let mut c = cfg();
    assert!(!launch_headed(&c));
    assert_eq!(fetch_permits(&c), 1);
    assert!(launch_args(&c).is_empty());
    c.user_data_dir = Some("/p".to_string());
    c.no_sandbox = true;
    c.proxy = Some("http://h:1".to_string());
    c.concurrency = 4;
    assert!(launch_headed(&c));
    assert_eq!(fetch_permits(&c), 4);
    assert_eq!(
        launch_args(&c),
        vec!["--no-sandbox".to_string(), "--proxy-server=http://h:1".to_string(), "--user-data-dir=/p".to_string()]
    );
}

#[test]
fn static_defaults() {
    let c = StaticConfig::default();
    assert!(c.insecure);
    assert_eq!(c.timeout, 60);
    assert!(c.headers.is_empty());
}

#[test]
fn redirects_resolve_against_the_url() {
    assert_eq!(redirect_target("http://a/b/c", "../d"), "http://a/d");
    assert_eq!(redirect_target("bad", "/x"), "/x");
    match static_step("http://a/b", 302, None, Some("/n")) {
        StaticStep::Redirect { from, to } => {
            assert_eq!(from, "http://a/b");
            assert_eq!(to, "http://a/n");
        },
        _ => panic!("expected a redirect"),
    }
    assert!(matches!(static_step("http://a/b", 302, None, None), StaticStep::Read));
    assert!(matches!(static_step("http://a/b", 200, None, Some("/n")), StaticStep::Read));
    assert!(matches!(static_step("http://a/b", 401, None, None), StaticStep::Unauthorized));
    assert!(matches!(static_step("http://a/b", 401, Some("x".to_string()), None), StaticStep::RetryWithDigest(ref a) if a == "x"));
}

#[test]
fn digest_challenge_answered() {
    assert_eq!(digest_uri("http://a/dir/p?q=1"), "/dir/p");
    assert_eq!(digest_uri("nope"), "nope");
    let creds = Some(("user".to_string(), "pass".to_string()));
    let challenge = r#"Digest realm="test", qop="auth", nonce="abc123", opaque="xyz""#;
    match first_response_step("http://a/dir/p", 401, &creds, Some(challenge), "0a1b2c", None) {
        StaticStep::RetryWithDigest(h) => {
            assert!(h.starts_with("Digest "));
            assert!(h.contains("uri=\"/dir/p\""));
            assert!(h.contains("username=\"user\""));
            assert!(h.contains("cnonce=\"0a1b2c\""));
        },
        _ => panic!("expected a digest retry"),
    }
    let quoted = Some(("a\"b\\c".to_string(), "pw".to_string()));
    match first_response_step("bad url", 401, &quoted, Some(challenge), "0a1b2c", None) {
        StaticStep::RetryWithDigest(h) => {
            assert!(h.starts_with("Digest username=\"a\\\"b\\\\c\", realm=\""));
            assert!(h.contains("\", uri=\"bad url\""));
        },
        _ => panic!("expected a digest retry"),
    }
    assert!(matches!(first_response_step("http://a/", 401, &None, Some(challenge), "n", None), StaticStep::Unauthorized));
    assert!(matches!(first_response_step("http://a/", 401, &creds, None, "n", None), StaticStep::Unauthorized));
    assert!(matches!(first_response_step("http://a/", 401, &creds, Some("garbage"), "n", None), StaticStep::Unauthorized));
    // the answer depends on the password and on nothing random once the nonce is given
    let answer = |user: &str, pass: &str| match first_response_step(
        "http://a/dir/p",
        401,
        &Some((user.to_string(), pass.to_string())),
        Some(challenge),
        "0a1b2c",
        None,
    ) {
        StaticStep::RetryWithDigest(h) => h,
        _ => panic!("expected a digest retry"),
    };
    assert_eq!(answer("user", "pass"), answer("user", "pass"));
    assert_ne!(answer("user", "pass"), answer("user", "other"));
    // RFC 2617 example: Mufasa / "Circle Of Life" on /dir/index.html
    let rfc = r#"Digest realm="testrealm@host.com", qop="auth,auth-int", nonce="dcd98b7102dd2f0e8b11d0f600bfb0c093", opaque="5ccc069c403ebaf9f0171e9517f40e41""#;
    let h = match first_response_step(
        "http://www.nowhere.org/dir/index.html",
        401,
        &Some(("Mufasa".to_string(), "Circle Of Life".to_string())),
        Some(rfc),
        "0a4f113b",
        None,
    ) {
        StaticStep::RetryWithDigest(h) => h,
        _ => panic!("expected a digest retry"),
    };
    assert!(h.contains("uri=\"/dir/index.html\""));
    assert!(h.contains("response=\"6629fae49393a05397450978507c4ef1\""), "{h}");
}
