use cewl::cli::{finalize_spider, finalize_spider_in_place, CewlArgs, VERSION};
use cewl::crawler::{
    browser_config_for, build_proxy_url, exclude_paths, normalise_url, parse_header_arg, proxy_for,
    static_config_for, UrlFilter,
};
use cewl::fetcher::{FetchOutcome, RenderWait};
use cewl::spider::{document_file_name, needs_fallback, page_text_of, Action, CrawlConfig, Crawler, Step};

fn args(url: &str) -> CewlArgs {
    CewlArgs {
        keep: false,
        depth: 2,
        min_word_length: 3,
        max_word_length: None,
        no_words: false,
        groups: -1,
        offsite: false,
        exclude: None,
        allowed: None,
        write: None,
        ua: None,
        meta_temp_dir: "/tmp".to_string(),
        meta_file: None,
        email_file: None,
        lowercase: false,
        with_numbers: false,
        convert_umlauts: false,
        meta: false,
        email: false,
        capture_paths: false,
        capture_subdomains: false,
        capture_domain: false,
        capture_url_structure: false,
        count: false,
        auth_user: None,
        auth_pass: None,
        auth_type: None,
        header: Vec::new(),
        proxy_host: None,
        proxy_port: None,
        proxy_username: None,
        proxy_password: None,
        verbose: false,
        keep_js: false,
        keep_css: false,
        debug: false,
        render: true,
        no_render: false,
        render_wait: "domcontentloaded".to_string(),
        render_timeout: 20,
        browser_path: None,
        browser_user_data_dir: None,
        browser_profile_dir: None,
        human_in_loop: false,
        human_timeout: 300,
        headed: false,
        concurrency: 4,
        no_fallback: false,
        insecure: false,
        no_sandbox: false,
        max_pages: None,
        url: url.to_string(),
    }
}

fn page(url: &str, html: &str) -> FetchOutcome {
    FetchOutcome::Response {
        final_url: url.to_string(),
        status: 200,
        content_type: Some("text/html".to_string()),
        body: html.as_bytes().to_vec(),
    }
}

fn crawler(a: &CewlArgs) -> Crawler {
    let seed = normalise_url(&a.url);
    let filter = UrlFilter::new(&seed, a.offsite, None, a.allowed.clone());
    Crawler::new(CrawlConfig::from_args(a, false), filter, seed, a.depth, a.debug)
}

fn fetch_url(c: &mut Crawler) -> Option<String> {
    match c.next_step() {
        Step::Done => None,
        Step::Fetch { url, .. } => Some(url),
    }
}

#[test]
fn options_helpers() {
    let mut a = args("example.com");
    assert_eq!(a.proxy_port_or_default(), 8080);
    assert!(a.wordlist_enabled());
    assert!(!a.browser_headed());
    assert_eq!(a.meta_temp_dir_str(), "/tmp/");
    a.no_render = true;
    a.capture_url_structure = true;
    a.browser_user_data_dir = Some("/prof".to_string());
    let f = finalize_spider(a);
    assert!(!f.render);
    assert!(f.capture_paths && f.capture_subdomains && f.capture_domain);
    assert!(f.headed);
    assert!(f.browser_headed());
    assert!(VERSION.contains("rust"));
    let mut b = args("example.com");
    b.capture_url_structure = true;
    b.no_render = true;
    finalize_spider_in_place(&mut b);
    assert!(!b.render && b.capture_paths && b.capture_subdomains && b.capture_domain && !b.headed);
    assert_eq!(b.url, "example.com");
}

#[test]
fn validation_errors() {
    let ok = args("http://a/");
    assert_eq!(ok.validate(), Ok(()));
    let mut a = args("http://a/");
    a.depth = -1;
    assert_eq!(a.validate(), Err("--depth must be >= 0".to_string()));
    let mut a = args("http://a/");
    a.min_word_length = 0;
    assert_eq!(a.validate(), Err("--min_word_length must be >= 1".to_string()));
    let mut a = args("http://a/");
    a.max_word_length = Some(0);
    assert_eq!(a.validate(), Err("--max_word_length must be >= 1".to_string()));
    let mut a = args("http://a/");
    a.groups = -2;
    assert_eq!(a.validate(), Err("--groups must be >= -1".to_string()));
    let mut a = args("http://a/");
    a.auth_type = Some("basic".to_string());
    assert_eq!(
        a.validate(),
        Err("If using --auth_type you must provide --auth_user and --auth_pass".to_string())
    );
    let mut a = args("http://a/");
    a.auth_user = Some("u".to_string());
    assert_eq!(a.validate(), Err("Authentication details provided but no --auth_type".to_string()));
    let mut a = args("http://a/");
    a.auth_type = Some("NTLM".to_string());
    a.auth_user = Some("u".to_string());
    a.auth_pass = Some("p".to_string());
    assert_eq!(a.validate(), Err("Invalid --auth_type, use basic or digest".to_string()));
    a.auth_type = Some("DiGeSt".to_string());
    assert_eq!(a.validate(), Ok(()));
}

#[test]
fn header_and_proxy_options() {
    assert_eq!(parse_header_arg(" X-A : b:c "), Some(("X-A".to_string(), "b:c".to_string())));
    assert_eq!(parse_header_arg("novalue"), None);
    assert_eq!(parse_header_arg(" : v"), None);
    assert_eq!(build_proxy_url("h", 3128, Some("u"), Some("p")), "http://u:p@h:3128");
    assert_eq!(build_proxy_url("h", 3128, Some("u"), None), "http://h:3128");
    let mut a = args("http://a/");
    assert_eq!(proxy_for(&a), None);
    a.proxy_host = Some("proxy".to_string());
    assert_eq!(proxy_for(&a), Some("http://proxy:8080".to_string()));
}

#[test]
fn fetcher_settings_from_options() {
    let mut a = args("http://a/");
    a.header = vec!["A: 1".to_string(), "bad".to_string(), "B:2".to_string()];
    a.auth_type = Some("Digest".to_string());
    a.auth_user = Some("u".to_string());
    a.render_wait = "load".to_string();
    let s = static_config_for(&a);
    assert_eq!(s.headers, vec![("A".to_string(), "1".to_string()), ("B".to_string(), "2".to_string())]);
    assert_eq!(s.auth_digest, Some(("u".to_string(), String::new())));
    assert_eq!(s.auth_basic, None);
    assert_eq!(s.timeout, 60);
    let b = browser_config_for(&a);
    assert_eq!(b.render_wait, RenderWait::Load);
    assert_eq!(b.extra_headers.len(), 2);
    assert_eq!(CrawlConfig::from_args(&a, true).digest, true);
}

#[test]
fn normalise_adds_scheme() {
    assert_eq!(normalise_url("example.com"), "http://example.com");
    assert_eq!(normalise_url("https://example.com"), "https://example.com");
}

#[test]
fn filter_admission() {
    let excl = exclude_paths(" /private \n\n/tmp\r\n");
    assert_eq!(excl, vec!["/private".to_string(), "/tmp".to_string()]);
    let f = UrlFilter::new("http://site.com/", false, Some(" /private \n\n/tmp\r\n"), Some("^/docs".to_string()));
    assert!(f.admit_url("http://site.com/docs/a"));
    assert!(!f.admit_url("http://site.com/other"));
    assert!(!f.admit_url("http://site.com/docs/pic.PNG"));
    assert!(!f.admit_url("http://other.com/docs/a"));
    assert!(!f.admit_url("https://site.com/docs/a"));
    assert!(!f.admit_url("mailto:a@site.com"));
    assert!(!f.admit_url("#top"));
    assert!(!f.admit_url("ftp://site.com/docs"));
    let f2 = UrlFilter::try_new("http://site.com/", true, Some("/private"), Some("([".to_string())).unwrap();
    assert!(f2.admit_url("https://other.com/x"));
    assert!(!f2.admit_url("http://site.com/private"));
    assert!(UrlFilter::try_new("not a url", false, None, None).is_none());
    assert!(UrlFilter::is_mailto("MailTo:x@y.z"));
    assert!(UrlFilter::is_binary_ext("http://a/b.PDF?x=1.html"));
    assert!(!UrlFilter::is_binary_ext("http://a/b.html?x=1.pdf"));
}

#[test]
fn document_names() {
    assert_eq!(document_file_name("http://a/dir/report.pdf", true), "report.pdf");
    assert_eq!(document_file_name("http://a/dir/report.pdf", false), "cewl_tmp.pdf");
    assert_eq!(document_file_name("http://a/dir/report.", false), "cewl_tmp");
}

#[test]
fn fallback_decision() {
    assert!(needs_fallback(&FetchOutcome::Error("x".to_string()), false));
    assert!(!needs_fallback(&FetchOutcome::Error("x".to_string()), true));
    assert!(!needs_fallback(&FetchOutcome::Unauthorized, false));
}

#[test]
fn crawl_follows_links_and_counts_words() {
    let mut a = args("site.com");
    a.email = true;
    let mut c = crawler(&a);
    assert_eq!(fetch_url(&mut c), Some("http://site.com".to_string()));
    let html = r#"<html><head><title>x</title></head><body>
        <a href="/about">About</a> <a href="mailto:mailto:boss@site.com">mail</a>
        <a href="http://elsewhere.org/">out</a> <a href="/about">again</a>
        <script>location.href = "/moved";</script>
        <p>Hello hello world, write to info@site.com</p></body></html>"#;
    let act = c.handle_outcome("http://site.com", page("http://site.com", html), false);
    assert!(matches!(act, Action::Continue));
    assert_eq!(c.pages_done, 1);
    let next: Vec<String> = std::iter::from_fn(|| fetch_url(&mut c)).collect();
    // the duplicate link is handed out once
    assert_eq!(next, vec!["http://site.com/about".to_string(), "http://site.com/moved".to_string()]);
    let r = c.finish();
    assert_eq!(r.words.get("Hello"), Some(&1));
    assert_eq!(r.words.get("hello"), Some(&1));
    assert_eq!(r.words.get("world"), Some(&1));
    assert_eq!(r.words.get("info"), Some(&1));
    assert_eq!(r.emails, vec!["boss@site.com".to_string(), "info@site.com".to_string()]);
}

#[test]
fn crawl_stops_at_page_limit() {
    let mut a = args("http://site.com/");
    a.max_pages = Some(1);
    let mut c = crawler(&a);
    let first = fetch_url(&mut c).unwrap();
    c.handle_outcome(&first, page(&first, r#"<a href="/next">n</a>"#), false);
    assert_eq!(fetch_url(&mut c), None);
}

#[test]
fn redirect_and_documents() {
    let mut a = args("http://site.com/");
    a.meta = true;
    a.capture_paths = true;
    let mut c = crawler(&a);
    let first = fetch_url(&mut c).unwrap();
    let act = c.handle_outcome(
        &first,
        FetchOutcome::Redirect { from: first.clone(), to: "http://site.com/files/annual-report.pdf".to_string() },
        false,
    );
    assert!(matches!(act, Action::Continue));
    assert_eq!(c.pages_done, 0);
    let doc = fetch_url(&mut c).unwrap();
    assert_eq!(doc, "http://site.com/files/annual-report.pdf");
    let outcome = FetchOutcome::Response {
        final_url: doc.clone(),
        status: 200,
        content_type: Some("application/pdf".to_string()),
        body: b"%PDF".to_vec(),
    };
    match c.handle_outcome(&doc, outcome, false) {
        Action::SaveDocument { file_name, body } => {
            assert_eq!(file_name, "cewl_tmp.pdf");
            assert_eq!(body, b"%PDF".to_vec());
        },
        Action::Continue => panic!("a PDF is saved for its metadata"),
    }
    c.add_usernames(vec!["Zoe".to_string(), " ".to_string(), "Adam".to_string(), "Zoe".to_string()]);
    let r = c.finish();
    assert_eq!(r.usernames, vec!["Adam".to_string(), "Zoe".to_string()]);
    // the document's path was counted as words
    assert_eq!(r.words.get("files"), Some(&1));
    assert_eq!(r.words.get("annual-report"), Some(&1));
}

#[test]
fn browser_choice_per_url() {
    let a = args("http://site.com/");
    let seed = normalise_url(&a.url);
    let filter = UrlFilter::new(&seed, false, None, None);
    let mut c = Crawler::new(CrawlConfig::from_args(&a, true), filter, seed, 2, false);
    match c.next_step() {
        Step::Fetch { prior, url, use_browser } => {
            assert_eq!(prior, None);
            assert_eq!(url, "http://site.com/");
            assert!(use_browser);
        },
        Step::Done => panic!("the seed is fetched first"),
    }
    c.handle_outcome("http://site.com/", page("http://site.com/", r#"<a href="/x.docx">d</a>"#), true);
    match c.next_step() {
        Step::Fetch { prior, url, use_browser } => {
            assert_eq!(prior, Some("http://site.com/".to_string()));
            assert_eq!(url, "http://site.com/x.docx");
            assert!(!use_browser);
        },
        Step::Done => panic!("the link is fetched"),
    }
}

#[test]
fn page_text_pipeline() {
    let a = args("http://site.com/");
    let c = CrawlConfig::from_args(&a, false);
    let html = r#"<p>One&amp;two</p><!-- hidden --><script>no()</script><img alt="Pic"><meta name="keywords" content="kw">"#;
    assert_eq!(page_text_of(&c, html), " One&two     kw Pic");
}

#[test]
fn capture_domain_alone_adds_only_the_domain() {
    let mut a = args("http://www.example.com/blog/");
    a.render = false;
    a.depth = 0;
    a.no_words = true;
    a.capture_domain = true;
    let mut c = crawler(&a);
    let first = fetch_url(&mut c).unwrap();
    c.handle_outcome(&first, page(&first, "<p>x</p>"), false);
    assert_eq!(fetch_url(&mut c), None);
    let r = c.finish();
    let words: Vec<(String, u64)> = r.words.iter().map(|(k, v)| (k.clone(), *v)).collect();
    assert_eq!(words, vec![("example.com".to_string(), 1)]);
}

#[test]
fn capture_paths_and_subdomains() {
    let mut a = args("http://www.example.com/blog/");
    a.no_words = true;
    a.capture_paths = true;
    a.capture_subdomains = true;
    let mut c = crawler(&a);
    let first = fetch_url(&mut c).unwrap();
    c.handle_outcome(&first, page(&first, "<p>x</p>"), false);
    let r = c.finish();
    let words: Vec<(String, u64)> = r.words.iter().map(|(k, v)| (k.clone(), *v)).collect();
    // "www" is three bytes, so it passes the minimum length
    assert_eq!(words, vec![("blog".to_string(), 1), ("www".to_string(), 1)]);
}
