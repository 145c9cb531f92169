//! The options of `cewl` and `fab`, and the rules that relate them.
//!
//! Paths are held as the text that `Path::display` shows.
use vstd::prelude::*;
use crate::text::{ends_with, str_ends_with, concat_str, str_eq, to_lowercase, unicode_lowercase};

verus! {

broadcast use vstd::string::group_string_axioms;

pub const VERSION: &'static str = "6.3.1-rust";

/// The options of the spider.
pub struct CewlArgs {
    pub keep: bool,
    pub depth: i32,
    pub min_word_length: usize,
    pub max_word_length: Option<usize>,
    pub no_words: bool,
    pub groups: i32,
    pub offsite: bool,
    pub exclude: Option<String>,
    pub allowed: Option<String>,
    pub write: Option<String>,
    pub ua: Option<String>,
    pub meta_temp_dir: String,
    pub meta_file: Option<String>,
    pub email_file: Option<String>,
    pub lowercase: bool,
    pub with_numbers: bool,
    pub convert_umlauts: bool,
    pub meta: bool,
    pub email: bool,
    pub capture_paths: bool,
    pub capture_subdomains: bool,
    pub capture_domain: bool,
    pub capture_url_structure: bool,
    pub count: bool,
    pub auth_user: Option<String>,
    pub auth_pass: Option<String>,
    pub auth_type: Option<String>,
    pub header: Vec<String>,
    pub proxy_host: Option<String>,
    pub proxy_port: Option<u16>,
    pub proxy_username: Option<String>,
    pub proxy_password: Option<String>,
    pub verbose: bool,
    pub keep_js: bool,
    pub keep_css: bool,
    pub debug: bool,
    /// Render pages with headless Chromium (default: on).
    pub render: bool,
    pub no_render: bool,
    pub render_wait: String,
    pub render_timeout: u64,
    pub browser_path: Option<String>,
    pub browser_user_data_dir: Option<String>,
    pub browser_profile_dir: Option<String>,
    pub human_in_loop: bool,
    pub human_timeout: u64,
    pub headed: bool,
    pub concurrency: usize,
    pub no_fallback: bool,
    pub insecure: bool,
    pub no_sandbox: bool,
    pub max_pages: Option<u64>,
    pub url: String,
}

/// The options after the flags that imply others have been applied.
pub open spec fn finalized(a: CewlArgs) -> CewlArgs {
    CewlArgs {
        render: if a.no_render {
            false
        } else {
            a.render
        },
        capture_paths: a.capture_paths || a.capture_url_structure,
        capture_subdomains: a.capture_subdomains || a.capture_url_structure,
        capture_domain: a.capture_domain || a.capture_url_structure,
        headed: a.headed || a.browser_user_data_dir is Some,
        ..a
    }
}

/// `--no-render` turns rendering off, `--capture-url-structure` turns on the
/// three captures, and a browser user-data directory implies `--headed`.
pub fn finalize_spider(a: CewlArgs) -> (r: CewlArgs)
    ensures
        r == finalized(a),
{
    let render = a.render && !a.no_render;
    let paths = a.capture_paths || a.capture_url_structure;
    let subdomains = a.capture_subdomains || a.capture_url_structure;
    let domain = a.capture_domain || a.capture_url_structure;
    let headed = a.headed || a.browser_user_data_dir.is_some();
    CewlArgs { render, capture_paths: paths, capture_subdomains: subdomains, capture_domain: domain, headed, ..a }
}

/// Every option empty, false, zero or absent.
pub open spec fn blank_spec(a: CewlArgs) -> bool {
    &&& !a.keep
    &&& a.depth == 0
    &&& a.min_word_length == 0
    &&& a.max_word_length is None
    &&& !a.no_words
    &&& a.groups == 0
    &&& !a.offsite
    &&& a.exclude is None
    &&& a.allowed is None
    &&& a.write is None
    &&& a.ua is None
    &&& a.meta_temp_dir@.len() == 0
    &&& a.meta_file is None
    &&& a.email_file is None
    &&& !a.lowercase
    &&& !a.with_numbers
    &&& !a.convert_umlauts
    &&& !a.meta
    &&& !a.email
    &&& !a.capture_paths
    &&& !a.capture_subdomains
    &&& !a.capture_domain
    &&& !a.capture_url_structure
    &&& !a.count
    &&& a.auth_user is None
    &&& a.auth_pass is None
    &&& a.auth_type is None
    &&& a.header@.len() == 0
    &&& a.proxy_host is None
    &&& a.proxy_port is None
    &&& a.proxy_username is None
    &&& a.proxy_password is None
    &&& !a.verbose
    &&& !a.keep_js
    &&& !a.keep_css
    &&& !a.debug
    &&& !a.render
    &&& !a.no_render
    &&& a.render_wait@.len() == 0
    &&& a.render_timeout == 0
    &&& a.browser_path is None
    &&& a.browser_user_data_dir is None
    &&& a.browser_profile_dir is None
    &&& !a.human_in_loop
    &&& a.human_timeout == 0
    &&& !a.headed
    &&& a.concurrency == 0
    &&& !a.no_fallback
    &&& !a.insecure
    &&& !a.no_sandbox
    &&& a.max_pages is None
    &&& a.url@.len() == 0
}

/// Options with every field empty, false or zero: what is left behind while
/// the options are rebuilt in place.
fn blank_args() -> (a: CewlArgs)
    ensures
        blank_spec(a),
{
    CewlArgs {
        keep: false,
        depth: 0,
        min_word_length: 0,
        max_word_length: None,
        no_words: false,
        groups: 0,
        offsite: false,
        exclude: None,
        allowed: None,
        write: None,
        ua: None,
        meta_temp_dir: String::new(),
        meta_file: None,
        email_file: None,
        lowercase: false,
        with_numbers: false,
        convert_umlauts: false,
        meta: false,
        email: false,
        capture_paths: false,
        capture_subdomains: false,
        capture_domain: false,
        capture_url_structure: false,
        count: false,
        auth_user: None,
        auth_pass: None,
        auth_type: None,
        header: Vec::new(),
        proxy_host: None,
        proxy_port: None,
        proxy_username: None,
        proxy_password: None,
        verbose: false,
        keep_js: false,
        keep_css: false,
        debug: false,
        render: false,
        no_render: false,
        render_wait: String::new(),
        render_timeout: 0,
        browser_path: None,
        browser_user_data_dir: None,
        browser_profile_dir: None,
        human_in_loop: false,
        human_timeout: 0,
        headed: false,
        concurrency: 0,
        no_fallback: false,
        insecure: false,
        no_sandbox: false,
        max_pages: None,
        url: String::new(),
    }
}

/// Applies the implied flags to the options in place (see `finalized`).
pub fn finalize_spider_in_place(a: &mut CewlArgs)
    ensures
        *final(a) == finalized(*old(a)),
{
    let mut taken = blank_args();
    std::mem::swap(&mut taken, a);
    *a = finalize_spider(taken);
}

/// The first rule that the options break, as its message.
pub open spec fn validation_error(a: CewlArgs) -> Option<Seq<char>> {
    if a.depth < 0 {
        Some("--depth must be >= 0"@)
    } else if a.min_word_length < 1 {
        Some("--min_word_length must be >= 1"@)
    } else if a.max_word_length matches Some(m) && m < 1 {
        Some("--max_word_length must be >= 1"@)
    } else if a.groups < -1 {
        Some("--groups must be >= -1"@)
    } else if a.auth_type is Some && (a.auth_user is None || a.auth_pass is None) {
        Some("If using --auth_type you must provide --auth_user and --auth_pass"@)
    } else if (a.auth_user is Some || a.auth_pass is Some) && a.auth_type is None {
        Some("Authentication details provided but no --auth_type"@)
    } else if a.auth_type matches Some(t) && unicode_lowercase(t@) != "basic"@ && unicode_lowercase(t@)
        != "digest"@ {
        Some("Invalid --auth_type, use basic or digest"@)
    } else {
        None
    }
}

impl CewlArgs {
    /// True when the browser should run in headed (visible) mode.
    pub fn browser_headed(&self) -> (b: bool)
        ensures
            b == (self.headed || self.human_in_loop || self.browser_user_data_dir is Some),
    {
        self.headed || self.human_in_loop || self.browser_user_data_dir.is_some()
    }

    /// Checks the rules between the options, in order, and reports the first
    /// one broken. (That the metadata temp directory exists and is writable is
    /// checked where the file system is at hand.)
    pub fn validate(&self) -> (r: Result<(), String>)
        ensures
            match r {
                Ok(_) => validation_error(*self) is None,
                Err(e) => validation_error(*self) == Some(e@),
            },
    {
        if self.depth < 0 {
            return Err("--depth must be >= 0".to_owned());
        }
        if self.min_word_length < 1 {
            return Err("--min_word_length must be >= 1".to_owned());
        }
        if let Some(m) = self.max_word_length {
            if m < 1 {
                return Err("--max_word_length must be >= 1".to_owned());
            }
        }
        if self.groups < -1 {
            return Err("--groups must be >= -1".to_owned());
        }
        if self.auth_type.is_some() && (self.auth_user.is_none() || self.auth_pass.is_none()) {
            return Err("If using --auth_type you must provide --auth_user and --auth_pass".to_owned());
        }
        if (self.auth_user.is_some() || self.auth_pass.is_some()) && self.auth_type.is_none() {
            return Err("Authentication details provided but no --auth_type".to_owned());
        }
        if let Some(t) = &self.auth_type {
            let tl = to_lowercase(t.as_str());
            if !str_eq(tl.as_str(), "basic") && !str_eq(tl.as_str(), "digest") {
                return Err("Invalid --auth_type, use basic or digest".to_owned());
            }
        }
        Ok(())
    }

    /// The metadata temp directory with a trailing `/`.
    pub fn meta_temp_dir_str(&self) -> (s: String)
        ensures
            s@ == (if ends_with(self.meta_temp_dir@, seq!['/']) {
                self.meta_temp_dir@
            } else {
                self.meta_temp_dir@.push('/')
            }),
    {
        proof {
            reveal_strlit("/");
            assert("/"@ =~= seq!['/']);
        }
        if str_ends_with(self.meta_temp_dir.as_str(), "/") {
            self.meta_temp_dir.clone()
        } else {
            let r = concat_str(self.meta_temp_dir.as_str(), "/");
            assert(r@ =~= self.meta_temp_dir@.push('/'));
            r
        }
    }

    /// The proxy port, 8080 when none was given.
    pub fn proxy_port_or_default(&self) -> (p: u16)
        ensures
            p == match self.proxy_port {
                Some(q) => q,
                None => 8080,
            },
    {
        match self.proxy_port {
            Some(q) => q,
            None => 8080,
        }
    }

    pub fn wordlist_enabled(&self) -> (b: bool)
        ensures
            b == !self.no_words,
    {
        !self.no_words
    }
}

/// The options of `fab`.
pub struct FabArgs {
    pub verbose: bool,
    pub files: Vec<String>,
}

/// What the command line asks for: a spider run or a `fab` run.
pub enum RootCmd {
    Spider(CewlArgs),
    Fab(FabArgs),
}

} // verus!
