//! The URL parser: parsing, reference resolution and host lookup are done by
//! `reqwest::Url` (the `url` crate). Each result is named by a spec function
//! of the input text alone, since the parser is deterministic.
use vstd::prelude::*;

verus! {

/// The serialization of `s` parsed as an absolute URL, or `None` if it does not parse.
pub uninterp spec fn parsed_url(s: Seq<char>) -> Option<Seq<char>>;

/// The serialization of `reference` resolved against the URL `base`, or
/// `None` if either does not parse.
pub uninterp spec fn joined_url(base: Seq<char>, reference: Seq<char>) -> Option<Seq<char>>;

/// The host of the URL `s`, or `None` if `s` does not parse or has no host.
pub uninterp spec fn host_of(s: Seq<char>) -> Option<Seq<char>>;

/// Relies on `Url::parse` and the `Display` of `Url`: the serialization of
/// the parsed URL, which depends on the input text alone.
#[verifier::external_body]
pub(crate) fn parse_url(s: &str) -> (r: Option<String>)
    ensures
        r.deep_view() == parsed_url(s@),
{
    reqwest::Url::parse(s).ok().map(|u| u.to_string())
}

/// Relies on `Url::parse` and `Url::join` (RFC 3986 reference resolution):
/// the serialization of the resolved URL, which depends on the two texts alone.
#[verifier::external_body]
pub(crate) fn join_url(base: &str, reference: &str) -> (r: Option<String>)
    ensures
        r.deep_view() == joined_url(base@, reference@),
{
    match reqwest::Url::parse(base) {
        Ok(b) => b.join(reference).ok().map(|u| u.to_string()),
        Err(_) => None,
    }
}

/// Relies on `Url::parse` and `Url::host_str`: the host of the parsed URL,
/// which depends on the input text alone.
#[verifier::external_body]
pub(crate) fn url_host(s: &str) -> (r: Option<String>)
    ensures
        r.deep_view() == host_of(s@),
{
    match reqwest::Url::parse(s) {
        Ok(u) => u.host_str().map(|h| h.to_string()),
        Err(_) => None,
    }
}

} // verus!
