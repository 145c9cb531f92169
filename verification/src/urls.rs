//! URLs as the logic reads them, parsed and joined by the `url` crate; the
//! registrable domain of a host by the `psl` crate; UTF-8 decoding.
use vstd::prelude::*;

verus! {

/// The parts of a parsed URL that the spider reads.
pub struct UrlParts {
    /// `Url::scheme`
    pub scheme: String,
    /// `Url::host_str`
    pub host: Option<String>,
    /// `Url::port_or_known_default`
    pub port: Option<u16>,
    /// `Url::path`
    pub path: String,
    /// `Url::fragment`
    pub fragment: Option<String>,
    /// `Url::as_str`, the serialisation
    pub serialization: String,
}

pub struct UrlView {
    pub scheme: Seq<char>,
    pub host: Option<Seq<char>>,
    pub port: Option<u16>,
    pub path: Seq<char>,
    pub fragment: Option<Seq<char>>,
    pub serialization: Seq<char>,
}

pub open spec fn opt_view(o: Option<String>) -> Option<Seq<char>> {
    match o {
        Some(s) => Some(s@),
        None => None,
    }
}

impl View for UrlParts {
    type V = UrlView;

    open spec fn view(&self) -> UrlView {
        UrlView {
            scheme: self.scheme@,
            host: opt_view(self.host),
            port: self.port,
            path: self.path@,
            fragment: opt_view(self.fragment),
            serialization: self.serialization@,
        }
    }
}

pub open spec fn opt_url_view(o: Option<UrlParts>) -> Option<UrlView> {
    match o {
        Some(u) => Some(u@),
        None => None,
    }
}

/// What `url::Url::parse` makes of `input` (`None` for a parse error), read as `UrlParts`.
pub uninterp spec fn url_parse(input: Seq<char>) -> Option<UrlView>;

/// What `url::Url::parse(base)` followed by `Url::join(input)` gives (`None`
/// when either fails), read as `UrlParts`.
pub uninterp spec fn url_parse_join(base: Seq<char>, input: Seq<char>) -> Option<UrlView>;

/// What `psl::domain` returns for the UTF-8 bytes of `host`: the bytes of the
/// registrable domain, if the public suffix list gives one.
pub uninterp spec fn psl_domain(host: Seq<char>) -> Option<Seq<u8>>;

/// `url::Url::parse`, read as `UrlParts`.
#[verifier::external_body]
pub(crate) fn parse_url(input: &str) -> (r: Option<UrlParts>)
    ensures
        opt_url_view(r) == url_parse(input@),
{
    match url::Url::parse(input) {
        Ok(u) => Some(UrlParts {
                scheme: u.scheme().to_string(),
                host: u.host_str().map(|h| h.to_string()),
                port: u.port_or_known_default(),
                path: u.path().to_string(),
                fragment: u.fragment().map(|f| f.to_string()),
                serialization: u.as_str().to_string(),
            }),
        Err(_) => None,
    }
}

/// `url::Url::parse(base)` then `Url::join(input)`, read as `UrlParts`.
#[verifier::external_body]
pub(crate) fn parse_join_url(base: &str, input: &str) -> (r: Option<UrlParts>)
    ensures
        opt_url_view(r) == url_parse_join(base@, input@),
{
    match url::Url::parse(base).and_then(|b| b.join(input)) {
        Ok(u) => Some(UrlParts {
                scheme: u.scheme().to_string(),
                host: u.host_str().map(|h| h.to_string()),
                port: u.port_or_known_default(),
                path: u.path().to_string(),
                fragment: u.fragment().map(|f| f.to_string()),
                serialization: u.as_str().to_string(),
            }),
        Err(_) => None,
    }
}

/// `psl::domain` on the bytes of `host`, the domain's bytes copied out.
#[verifier::external_body]
pub(crate) fn registrable_domain_bytes(host: &str) -> (r: Option<Vec<u8>>)
    ensures
        match r {
            Some(v) => psl_domain(host@) == Some(v@),
            None => psl_domain(host@) is None,
        },
{
    psl::domain(host.as_bytes()).map(|d| d.as_bytes().to_vec())
}

/// `std::str::from_utf8`: succeeds exactly on valid UTF-8, and then holds the
/// characters that the bytes encode.
#[verifier::external_body]
pub(crate) fn utf8_decode(bytes: &[u8]) -> (r: Option<String>)
    ensures
        r is Some <==> vstd::utf8::valid_utf8(bytes@),
        r matches Some(s) ==> s@ == vstd::utf8::decode_utf8(bytes@),
{
    std::str::from_utf8(bytes).ok().map(|s| s.to_string())
}

} // verus!
