//! What the library asks of the `url` crate: whether a text parses as a URL,
//! its normalised form and scheme, and whether two URLs share an origin.
use vstd::prelude::*;

verus! {

/// `url::Url::parse(s)`: on success the URL's serialisation and its scheme
/// (lower case); on failure the error's text.
pub uninterp spec fn url_parsed(s: Seq<char>) -> Result<(Seq<char>, Seq<char>), Seq<char>>;

/// Whether `url::Url::parse` accepts both texts and their `origin()`s are equal.
pub uninterp spec fn url_same_origin(a: Seq<char>, b: Seq<char>) -> bool;

/// A parsed URL: its serialisation and its scheme.
pub struct ParsedUrl {
    /// `Url::as_str` / `to_string`.
    pub text: String,
    /// `Url::scheme`, lower case.
    pub scheme: String,
}

/// `url::Url::parse(s)`.
#[verifier::external_body]
pub(crate) fn parse_url(s: &str) -> (r: Result<ParsedUrl, String>)
    ensures
        match url_parsed(s@) {
            Ok(p) => r is Ok && r->Ok_0.text@ == p.0 && r->Ok_0.scheme@ == p.1,
            Err(e) => r is Err && r->Err_0@ == e,
        },
{
    match url::Url::parse(s) {
        Ok(u) => Ok(ParsedUrl { text: u.to_string(), scheme: u.scheme().to_owned() }),
        Err(e) => Err(e.to_string()),
    }
}

/// `url::Url::parse(a)?.origin() == url::Url::parse(b)?.origin()`.
#[verifier::external_body]
pub(crate) fn same_origin(a: &str, b: &str) -> (r: bool)
    ensures
        r == url_same_origin(a@, b@),
{
    match (url::Url::parse(a), url::Url::parse(b)) {
        (Ok(x), Ok(y)) => x.origin() == y.origin(),
        _ => false,
    }
}

/// `http` or `https`.
pub open spec fn is_web_scheme(scheme: Seq<char>) -> bool {
    scheme == "http"@ || scheme == "https"@
}

pub fn web_scheme(scheme: &str) -> (r: bool)
    ensures
        r == is_web_scheme(scheme@),
{
    let s = String::from_str(scheme);
    let h = String::from_str("http");
    let hs = String::from_str("https");
    s == h || s == hs
}

} // verus!
