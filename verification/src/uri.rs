//! The scheme of a url, as `http::Uri` reads it.

use crate::text::str_eq;
use vstd::prelude::*;

verus! {

/// The scheme that `http::Uri` finds in `text`: what `Uri::scheme_str` gives
/// for the value that `text` parses to, and nothing where `text` does not
/// parse as a uri or has no scheme.
pub uninterp spec fn uri_scheme(text: Seq<char>) -> Option<Seq<char>>;

/// `str::parse::<http::Uri>` followed by `Uri::scheme_str`: the scheme of
/// the uri that `text` holds.
#[verifier::external_body]
pub(crate) fn scheme_of(text: &str) -> (r: Option<String>)
    ensures
        (match r {
            Some(scheme) => Some(scheme@),
            None => None,
        }) == uri_scheme(text@),
{
    match text.parse::<http::Uri>() {
        Ok(uri) => match uri.scheme_str() {
            Some(scheme) => Some(scheme.to_owned()),
            None => None,
        },
        Err(_) => None,
    }
}

/// Whether a scheme is `http` or `https`.
pub open spec fn web_scheme(scheme: Option<Seq<char>>) -> bool {
    scheme == Some("http"@) || scheme == Some("https"@)
}

/// Whether a scheme is `http` or `https`.
pub fn is_web_scheme(scheme: Option<&str>) -> (r: bool)
    ensures
        r == web_scheme(
            match scheme {
                Some(s) => Some(s@),
                None => None,
            },
        ),
{
    match scheme {
        Some(s) => str_eq(s, "http") || str_eq(s, "https"),
        None => false,
    }
}

/// Whether `url` is a uri with the scheme `http` or `https`.
pub fn has_web_scheme(url: &str) -> (r: bool)
    ensures
        r == web_scheme(uri_scheme(url@)),
{
    match scheme_of(url) {
        Some(scheme) => is_web_scheme(Some(scheme.as_str())),
        None => is_web_scheme(None),
    }
}

} // verus!
