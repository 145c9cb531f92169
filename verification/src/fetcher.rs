//! What a fetch hands back, the fetchers' settings, and the decisions the
//! fetchers make on plain values.
use vstd::prelude::*;
use crate::text::{chars_of, lower_chars, lower_seq, contains_seq, contains_str, str_eq, concat_str, ascii_text};
use crate::urls::{parse_url, parse_join_url, url_parse, url_parse_join};

verus! {

broadcast use vstd::string::group_string_axioms;

/// The result of fetching one URL.
pub enum FetchOutcome {
    /// Normal HTML/text response (static path).
    Response { final_url: String, status: u16, content_type: Option<String>, body: Vec<u8> },
    /// Browser response, with the URLs sniffed from network events.
    BrowserResponse {
        final_url: String,
        status: u16,
        content_type: Option<String>,
        body: Vec<u8>,
        discovered_urls: Vec<String>,
    },
    /// 3xx: the caller re-enqueues `to`.
    Redirect { from: String, to: String },
    /// 401 with no viable auth.
    Unauthorized,
    /// Any other error (socket, parse, timeout ...).
    Error(String),
}

/// The content type of a response outcome, if the outcome is a response.
pub open spec fn outcome_content_type(o: FetchOutcome) -> Option<Option<Seq<char>>> {
    match o {
        FetchOutcome::Response { content_type, .. } => Some(crate::urls::opt_view(content_type)),
        FetchOutcome::BrowserResponse { content_type, .. } => Some(crate::urls::opt_view(content_type)),
        _ => None,
    }
}

/// The content type (ASCII case aside) names HTML, XHTML or plain text.
pub open spec fn htmlish_type(ct: Seq<char>) -> bool {
    let l = lower_seq(ct);
    contains_seq(l, "text/html"@) || contains_seq(l, "application/xhtml"@) || contains_seq(l, "text/plain"@)
}

/// The content type (ASCII case aside) names a document or binary format.
pub open spec fn binary_type(ct: Seq<char>) -> bool {
    let l = lower_seq(ct);
    ||| contains_seq(l, "pdf"@)
    ||| contains_seq(l, "msword"@)
    ||| contains_seq(l, "officedocument"@)
    ||| contains_seq(l, "octet-stream"@)
    ||| contains_seq(l, "zip"@)
}

pub fn is_binary_type(ct: &str) -> (b: bool)
    ensures
        b == binary_type(ct@),
{
    let l = lower_chars(&chars_of(ct));
    contains_str(&l, "pdf") || contains_str(&l, "msword") || contains_str(&l, "officedocument") || contains_str(
        &l,
        "octet-stream",
    ) || contains_str(&l, "zip")
}

impl FetchOutcome {
    /// A response whose content type is missing or names HTML, XHTML or plain text.
    pub fn is_htmlish(&self) -> (b: bool)
        ensures
            b == match outcome_content_type(*self) {
                Some(Some(ct)) => htmlish_type(ct),
                Some(None) => true,
                None => false,
            },
    {
        let ct = match self {
            FetchOutcome::Response { content_type, .. } => content_type,
            FetchOutcome::BrowserResponse { content_type, .. } => content_type,
            _ => return false,
        };
        match ct {
            None => true,
            Some(c) => {
                let l = lower_chars(&chars_of(c.as_str()));
                contains_str(&l, "text/html") || contains_str(&l, "application/xhtml") || contains_str(
                    &l,
                    "text/plain",
                )
            },
        }
    }

    /// A response whose content type names a document or binary format.
    pub fn is_binary_content_type(&self) -> (b: bool)
        ensures
            b == match outcome_content_type(*self) {
                Some(Some(ct)) => binary_type(ct),
                _ => false,
            },
    {
        let ct = match self {
            FetchOutcome::Response { content_type, .. } => content_type,
            FetchOutcome::BrowserResponse { content_type, .. } => content_type,
            _ => return false,
        };
        match ct {
            None => false,
            Some(c) => is_binary_type(c.as_str()),
        }
    }

    /// The final URL, body and content type of a response.
    pub fn body_and_url(self) -> (r: Option<(String, Vec<u8>, Option<String>)>)
        ensures
            r == match self {
                FetchOutcome::Response { final_url, body, content_type, .. } => Some((final_url, body, content_type)),
                FetchOutcome::BrowserResponse { final_url, body, content_type, .. } => Some(
                    (final_url, body, content_type),
                ),
                _ => None,
            },
    {
        match self {
            FetchOutcome::Response { final_url, body, content_type, .. } => Some((final_url, body, content_type)),
            FetchOutcome::BrowserResponse { final_url, body, content_type, .. } => Some(
                (final_url, body, content_type),
            ),
            _ => None,
        }
    }

    /// The URLs that the browser was seen requesting (none for other outcomes).
    pub fn discovered_urls(&self) -> (r: &[String])
        ensures
            r@ == match *self {
                FetchOutcome::BrowserResponse { discovered_urls, .. } => discovered_urls@,
                _ => Seq::empty(),
            },
    {
        match self {
            FetchOutcome::BrowserResponse { discovered_urls, .. } => discovered_urls.as_slice(),
            _ => {
                let e: &[String] = &[];
                assert(e@ =~= Seq::<String>::empty());
                e
            },
        }
    }
}

/// Settings of the static HTTP fetcher.
pub struct StaticConfig {
    pub user_agent: Option<String>,
    /// Parsed `name: value` header pairs.
    pub headers: Vec<(String, String)>,
    pub proxy_url: Option<String>,
    /// Accept invalid TLS certificates.
    pub insecure: bool,
    pub auth_basic: Option<(String, String)>,
    pub auth_digest: Option<(String, String)>,
    /// Request timeout, in seconds.
    pub timeout: u64,
}

impl Default for StaticConfig {
    fn default() -> (c: Self)
        ensures
            c.user_agent is None,
            c.headers@.len() == 0,
            c.proxy_url is None,
            c.insecure,
            c.auth_basic is None,
            c.auth_digest is None,
            c.timeout == 60,
    {
        StaticConfig {
            user_agent: None,
            headers: Vec::new(),
            proxy_url: None,
            insecure: true,
            auth_basic: None,
            auth_digest: None,
            timeout: 60,
        }
    }
}

/// The page event that the browser waits for.
#[derive(Clone, Copy, Debug, PartialEq, Eq, Structural)]
pub enum RenderWait {
    Load,
    DomContentLoaded,
    NetworkIdle,
}

impl RenderWait {
    /// `load` and `networkidle` name their events; anything else means `domcontentloaded`.
    pub fn parse(s: &str) -> (r: Self)
        ensures
            r == (if s@ == "load"@ {
                RenderWait::Load
            } else if s@ == "networkidle"@ {
                RenderWait::NetworkIdle
            } else {
                RenderWait::DomContentLoaded
            }),
    {
        if str_eq(s, "load") {
            RenderWait::Load
        } else if str_eq(s, "networkidle") {
            RenderWait::NetworkIdle
        } else {
            RenderWait::DomContentLoaded
        }
    }
}

/// Settings of the browser fetcher.
pub struct BrowserCfg {
    pub browser_path: Option<String>,
    pub user_data_dir: Option<String>,
    pub profile_directory: Option<String>,
    pub headed: bool,
    pub no_sandbox: bool,
    pub user_agent: Option<String>,
    pub proxy: Option<String>,
    pub insecure: bool,
    pub render_wait: RenderWait,
    /// Navigation timeout, in seconds.
    pub render_timeout: u64,
    pub human_in_loop: bool,
    /// How long to wait for the human, in seconds.
    pub human_timeout: u64,
    pub concurrency: usize,
    pub extra_headers: Vec<(String, String)>,
}

/// The browser shows its window when asked to, or when a profile directory is used.
pub fn launch_headed(cfg: &BrowserCfg) -> (b: bool)
    ensures
        b == (cfg.headed || cfg.user_data_dir is Some),
{
    cfg.headed || cfg.user_data_dir.is_some()
}

/// The number of pages fetched at once: the configured concurrency, at least 1.
pub fn fetch_permits(cfg: &BrowserCfg) -> (n: usize)
    ensures
        n == (if cfg.concurrency < 1 {
            1
        } else {
            cfg.concurrency
        }),
{
    if cfg.concurrency < 1 {
        1
    } else {
        cfg.concurrency
    }
}

/// `prefix` followed by the optional value, as one argument when the value is present.
pub open spec fn flag_arg(prefix: Seq<char>, v: Option<Seq<char>>) -> Seq<Seq<char>> {
    match v {
        Some(x) => seq![prefix + x],
        None => Seq::empty(),
    }
}

/// The command-line arguments that the browser is launched with, in order.
pub open spec fn launch_args_spec(cfg: BrowserCfg) -> Seq<Seq<char>> {
    (if cfg.no_sandbox {
        seq!["--no-sandbox"@]
    } else {
        Seq::empty()
    }) + (if cfg.insecure {
        seq!["--ignore-certificate-errors"@]
    } else {
        Seq::empty()
    }) + flag_arg("--proxy-server="@, crate::urls::opt_view(cfg.proxy)) + flag_arg(
        "--user-agent="@,
        crate::urls::opt_view(cfg.user_agent),
    ) + flag_arg("--user-data-dir="@, crate::urls::opt_view(cfg.user_data_dir)) + flag_arg(
        "--profile-directory="@,
        crate::urls::opt_view(cfg.profile_directory),
    )
}

fn push_flag(out: &mut Vec<String>, prefix: &str, v: &Option<String>)
    ensures
        crate::text::strings_view(final(out)@) == crate::text::strings_view(old(out)@) + flag_arg(
            prefix@,
            crate::urls::opt_view(*v),
        ),
{
    let ghost before = crate::text::strings_view(out@);
    if let Some(x) = v {
        let s = concat_str(prefix, x.as_str());
        out.push(s);
        assert(crate::text::strings_view(out@) =~= before + seq![prefix@ + x@]);
    } else {
        assert(before + Seq::<Seq<char>>::empty() =~= before);
    }
}

pub fn launch_args(cfg: &BrowserCfg) -> (r: Vec<String>)
    ensures
        crate::text::strings_view(r@) == launch_args_spec(*cfg),
{
    let mut out: Vec<String> = Vec::new();
    let ghost e = crate::text::strings_view(out@);
    assert(e =~= Seq::<Seq<char>>::empty());
    if cfg.no_sandbox {
        out.push("--no-sandbox".to_owned());
    }
    let ghost a = crate::text::strings_view(out@);
    assert(a =~= (if cfg.no_sandbox { seq!["--no-sandbox"@] } else { Seq::empty() }));
    if cfg.insecure {
        out.push("--ignore-certificate-errors".to_owned());
    }
    let ghost b = crate::text::strings_view(out@);
    assert(b =~= a + (if cfg.insecure { seq!["--ignore-certificate-errors"@] } else { Seq::empty() }));
    push_flag(&mut out, "--proxy-server=", &cfg.proxy);
    push_flag(&mut out, "--user-agent=", &cfg.user_agent);
    push_flag(&mut out, "--user-data-dir=", &cfg.user_data_dir);
    push_flag(&mut out, "--profile-directory=", &cfg.profile_directory);
    out
}

/// Where a redirect from `url` to `location` leads: `location` resolved
/// against `url`, or `location` as it is when that fails.
pub open spec fn redirect_target_spec(url: Seq<char>, location: Seq<char>) -> Seq<char> {
    match url_parse_join(url, location) {
        Some(u) => u.serialization,
        None => location,
    }
}

pub fn redirect_target(url: &str, location: &str) -> (r: String)
    ensures
        r@ == redirect_target_spec(url@, location@),
{
    match parse_join_url(url, location) {
        Some(u) => u.serialization,
        None => location.to_owned(),
    }
}

/// The URI that a digest-auth answer is computed for: the path of `url`, or
/// `url` itself when it does not parse.
pub open spec fn digest_uri_spec(url: Seq<char>) -> Seq<char> {
    match url_parse(url) {
        Some(u) => u.path,
        None => url,
    }
}

pub fn digest_uri(url: &str) -> (r: String)
    ensures
        r@ == digest_uri_spec(url@),
{
    match parse_url(url) {
        Some(u) => u.path,
        None => url.to_owned(),
    }
}

/// What the static fetcher does after its first response.
pub enum StaticStep {
    /// Fetch again, sending this `Authorization` value.
    RetryWithDigest(String),
    /// Give up with `FetchOutcome::Unauthorized`.
    Unauthorized,
    /// Hand back `FetchOutcome::Redirect`.
    Redirect { from: String, to: String },
    /// Read this response's body.
    Read,
}

/// The decision on a first response with `status`: `answer` is the digest
/// answer computed for a 401, `location` the `Location` header. A 401 is
/// retried with the answer, or given up; a 3xx with a location is a redirect
/// to the location resolved against `url`; anything else is read.
pub fn static_step(url: &str, status: u16, answer: Option<String>, location: Option<&str>) -> (r: StaticStep)
    ensures
        status == 401 ==> match answer {
            Some(a) => (r matches StaticStep::RetryWithDigest(x) && x@ == a@),
            None => r is Unauthorized,
        },
        status != 401 && 300 <= status <= 399 && location is Some ==> (r matches StaticStep::Redirect { from, to }
            && from@ == url@ && to@ == redirect_target_spec(url@, location->0@)),
        status != 401 && !(300 <= status <= 399 && location is Some) ==> r is Read,
{
    if status == 401 {
        return match answer {
            Some(a) => StaticStep::RetryWithDigest(a),
            None => StaticStep::Unauthorized,
        };
    }
    if 300 <= status && status <= 399 {
        if let Some(loc) = location {
            return StaticStep::Redirect { from: url.to_owned(), to: redirect_target(url, loc) };
        }
    }
    StaticStep::Read
}

/// A value as `digest_auth` quotes it: `\` and `"` each escaped by a `\`.
pub open spec fn digest_quote(s: Seq<char>) -> Seq<char>
    decreases s.len(),
{
    if s.len() == 0 {
        Seq::empty()
    } else {
        digest_quote(s.drop_last()) + if s.last() == '\\' {
            seq!['\\', '\\']
        } else if s.last() == '"' {
            seq!['\\', '"']
        } else {
            seq![s.last()]
        }
    }
}

/// What a written-out digest answer shows of the user and the URI: it starts
/// with `Digest `, holds the quoted URI as its `uri` field, and, unless the
/// challenge may ask for a hashed user name, begins with the quoted user name
/// as its `username` field.
pub open spec fn digest_answer_shape(h: Seq<char>, challenge: Seq<char>, user: Seq<char>, uri: Seq<char>) -> bool {
    &&& crate::text::starts_with(h, "Digest "@)
    &&& crate::text::contains_seq(h, "\", uri=\""@ + digest_quote(uri) + seq!['"'])
    &&& (!crate::text::contains_seq(challenge, "userhash"@) ==> crate::text::starts_with(
        h,
        "Digest username=\""@ + digest_quote(user) + "\", realm=\""@,
    ))
}

/// What `digest_auth::WwwAuthenticateHeader::parse(challenge)` followed by
/// `respond` with `AuthContext::new(user, pass, uri)` and the client nonce set
/// by `set_custom_cnonce(cnonce)` gives, written out as a header value; `None`
/// when the challenge does not parse or cannot be answered.
pub uninterp spec fn digest_answer_text(
    challenge: Seq<char>,
    user: Seq<char>,
    pass: Seq<char>,
    uri: Seq<char>,
    cnonce: Seq<char>,
) -> Option<Seq<char>>;

/// `digest_auth::WwwAuthenticateHeader::parse` on the challenge, then
/// `respond` for the user, password and URI with the given client nonce,
/// written out as a header value. The parser cuts the challenge at character
/// counts as if they were byte offsets, so it is only called on ASCII
/// challenges. Beside naming the answer, the contract states the layout of its
/// leading fields as `AuthorizationHeader`'s `Display` writes them
/// (`username`, then `realm`, `nonce`, `uri`, each quoted), the user name being
/// hashed only when the challenge holds a `userhash` parameter.
#[verifier::external_body]
fn digest_answer(challenge: &str, user: &str, pass: &str, uri: &str, cnonce: &str) -> (r: Option<String>)
    requires
        ascii_text(challenge@),
    ensures
        crate::urls::opt_view(r) == digest_answer_text(challenge@, user@, pass@, uri@, cnonce@),
        r matches Some(h) ==> digest_answer_shape(h@, challenge@, user@, uri@),
{
    let mut prompt = digest_auth::WwwAuthenticateHeader::parse(challenge).ok()?;
    let mut ctx = digest_auth::AuthContext::new(user, pass, uri);
    ctx.set_custom_cnonce(cnonce);
    prompt.respond(&ctx).ok().map(|a| a.to_string())
}

/// The decision on a first response, answering a digest challenge when the
/// response is a 401, digest credentials are set and the server sent a
/// `WWW-Authenticate` header. The answer is computed for the configured user
/// and password, the URL's digest URI and the given client nonce; a 401 that
/// gets no answer is given up.
pub fn first_response_step(
    url: &str,
    status: u16,
    digest: &Option<(String, String)>,
    www_authenticate: Option<&str>,
    cnonce: &str,
    location: Option<&str>,
) -> (r: StaticStep)
    requires
        status == 401 && digest is Some ==> (www_authenticate matches Some(c) ==> ascii_text(c@)),
    ensures
        status == 401 ==> match (*digest, www_authenticate) {
            (Some((u, p)), Some(c)) => match digest_answer_text(c@, u@, p@, digest_uri_spec(url@), cnonce@) {
                Some(h) => (r matches StaticStep::RetryWithDigest(x) && x@ == h && digest_answer_shape(
                    h,
                    c@,
                    u@,
                    digest_uri_spec(url@),
                )),
                None => r is Unauthorized,
            },
            _ => r is Unauthorized,
        },
        status == 401 && (digest is None || www_authenticate is None) ==> r is Unauthorized,
        status != 401 && 300 <= status <= 399 && location is Some ==> (r matches StaticStep::Redirect { from, to }
            && from@ == url@ && to@ == redirect_target_spec(url@, location->0@)),
        status != 401 && !(300 <= status <= 399 && location is Some) ==> r is Read,
{
    let answer = if status == 401 {
        match (digest, www_authenticate) {
            (Some((user, pass)), Some(challenge)) => {
                let uri = digest_uri(url);
                digest_answer(challenge, user.as_str(), pass.as_str(), uri.as_str(), cnonce)
            },
            _ => None,
        }
    } else {
        None
    };
    static_step(url, status, answer, location)
}

/// The outcome of a rendered page: at the browser's final URL (the requested
/// one when it reports none), status 200, typed as UTF-8 HTML, with the
/// page's HTML as UTF-8 bytes and the URLs the page requested.
pub fn browser_response(url: &str, final_url: Option<String>, html: String, discovered: Vec<String>) -> (o: FetchOutcome)
    ensures
        o matches FetchOutcome::BrowserResponse { final_url: f, status, content_type, body, discovered_urls } && {
            &&& f@ == match final_url {
                Some(u) => u@,
                None => url@,
            }
            &&& status == 200
            &&& content_type matches Some(ct) && ct@ == "text/html; charset=utf-8"@
            &&& body@ == vstd::utf8::encode_utf8(html@)
            &&& discovered_urls@ == discovered@
        },
{
    let f = match final_url {
        Some(u) => u,
        None => url.to_owned(),
    };
    FetchOutcome::BrowserResponse {
        final_url: f,
        status: 200,
        content_type: Some("text/html; charset=utf-8".to_owned()),
        body: html.as_str().as_bytes_vec(),
        discovered_urls: discovered,
    }
}

} // verus!
