//! Resolution and normalization of URLs through the url crate.
//!
//! The library treats a URL as its string form and never looks inside it;
//! what the url crate computes from such a string is named by uninterpreted
//! functions, so that contracts can state exactly which string a result came
//! from.

use vstd::prelude::*;

verus! {

/// What resolving `rel` against the absolute URL `base` yields, as its
/// normalized string form; `None` when either side is rejected.
pub uninterp spec fn url_join_of(base: Seq<char>, rel: Seq<char>) -> Option<Seq<char>>;

/// The normalized string form of an absolute URL; `None` when the string is
/// not one.
pub uninterp spec fn url_normal_of(s: Seq<char>) -> Option<Seq<char>>;

/// The host part of an absolute URL; `None` when the string is not an
/// absolute URL or has no host.
pub uninterp spec fn host_of_url(s: Seq<char>) -> Option<Seq<char>>;

/// Relies on url's `Url::parse` and `Url::join`: resolving a possibly
/// relative reference against an absolute base depends on the two strings
/// alone.
#[verifier::external_body]
pub(crate) fn join_url(base: &str, rel: &str) -> (r: Option<String>)
    ensures
        match r {
            Some(u) => url_join_of(base@, rel@) == Some(u@),
            None => url_join_of(base@, rel@) is None,
        },
{
    match url::Url::parse(base) {
        Ok(b) => match b.join(rel) {
            Ok(u) => Some(u.as_str().to_string()),
            Err(_) => None,
        },
        Err(_) => None,
    }
}

/// Relies on url's `Url::parse` and `Url::as_str`: the normalized form of an
/// absolute URL depends on the string alone.
#[verifier::external_body]
pub(crate) fn parse_url(s: &str) -> (r: Option<String>)
    ensures
        match r {
            Some(u) => url_normal_of(s@) == Some(u@),
            None => url_normal_of(s@) is None,
        },
{
    match url::Url::parse(s) {
        Ok(u) => Some(u.as_str().to_string()),
        Err(_) => None,
    }
}

/// Relies on url's `Url::parse` and `Url::host_str`: the host of an absolute
/// URL depends on the string alone.
#[verifier::external_body]
pub(crate) fn url_host(s: &str) -> (r: Option<String>)
    ensures
        match r {
            Some(h) => host_of_url(s@) == Some(h@),
            None => host_of_url(s@) is None,
        },
{
    match url::Url::parse(s) {
        Ok(u) => u.host_str().map(|h| h.to_string()),
        Err(_) => None,
    }
}

} // verus!
