//! The URL operations the library takes from the `url` crate.
//!
//! A URL is carried through the library as its serialization (the text that
//! `url::Url::as_str` gives), so each operation below is stated over
//! character sequences.
use vstd::prelude::*;

verus! {

/// The serialization of the absolute URL that `url::Url::parse` reads from
/// `input`, or `None` where that parse fails.
pub uninterp spec fn url_parse(input: Seq<char>) -> Option<Seq<char>>;

/// The serialization of the URL that `url::Url::join` resolves `input` to,
/// against the URL that `url::Url::parse` reads from `base`; `None` where
/// either step fails.
pub uninterp spec fn url_join(base: Seq<char>, input: Seq<char>) -> Option<Seq<char>>;

/// The host (`url::Url::host_str`) of the URL that `url::Url::parse` reads
/// from `url`; `None` where the parse fails or the URL has no host.
pub uninterp spec fn url_host(url: Seq<char>) -> Option<Seq<char>>;

/// The serialization of the URL that `url::Url::parse` reads from `url`
/// after `url::Url::set_query` gives it the query `query`; `None` where the
/// parse fails.
pub uninterp spec fn url_with_query(url: Seq<char>, query: Seq<char>) -> Option<Seq<char>>;

/// Calls `url::Url::parse` on `input` and hands back the serialization of
/// the result. Claimed: the result is `url_parse(input)`.
#[verifier::external_body]
pub(crate) fn parse_url(input: &str) -> (r: Option<String>)
    ensures
        match r {
            Some(u) => url_parse(input@) == Some(u@),
            None => url_parse(input@) is None,
        },
{
    url::Url::parse(input).ok().map(|u| u.as_str().to_string())
}

/// Parses `base` with `url::Url::parse` and calls `url::Url::join` on it with
/// `input`, handing back the serialization of the result. Claimed: the
/// result is `url_join(base, input)`.
#[verifier::external_body]
pub(crate) fn join_url(base: &str, input: &str) -> (r: Option<String>)
    ensures
        match r {
            Some(u) => url_join(base@, input@) == Some(u@),
            None => url_join(base@, input@) is None,
        },
{
    url::Url::parse(base).ok().and_then(|b| b.join(input).ok()).map(|u| u.as_str().to_string())
}

/// Parses `url` with `url::Url::parse` and calls `url::Url::host_str` on the
/// result. Claimed: the result is `url_host(url)`.
#[verifier::external_body]
pub(crate) fn host_of_url(url: &str) -> (r: Option<String>)
    ensures
        match r {
            Some(h) => url_host(url@) == Some(h@),
            None => url_host(url@) is None,
        },
{
    url::Url::parse(url).ok().and_then(|u| u.host_str().map(|h| h.to_string()))
}

/// Parses `url` with `url::Url::parse` and calls `url::Url::set_query` on it
/// with `query`, handing back the serialization of the result. Claimed: the
/// result is `url_with_query(url, query)`.
#[verifier::external_body]
pub(crate) fn set_url_query(url: &str, query: &str) -> (r: Option<String>)
    ensures
        match r {
            Some(u) => url_with_query(url@, query@) == Some(u@),
            None => url_with_query(url@, query@) is None,
        },
{
    url::Url::parse(url).ok().map(|mut u| {
        u.set_query(Some(query));
        u.as_str().to_string()
    })
}

} // verus!
