//! Folder locations: parsing a location string into its scheme and path.

use vstd::prelude::*;

verus! {

/// A parsed location: the scheme and path of a URL, held as plain strings.
#[derive(Debug)]
pub struct Location {
    pub scheme: String,
    pub path: String,
}

/// Whether the `url` crate accepts the string as an absolute URL.
pub uninterp spec fn url_ok(s: Seq<char>) -> bool;

/// The scheme the `url` crate reads out of a parseable location string.
pub uninterp spec fn url_scheme(s: Seq<char>) -> Seq<char>;

/// The path the `url` crate reads out of a parseable location string.
pub uninterp spec fn url_path(s: Seq<char>) -> Seq<char>;

/// Relies on `url::Url::parse`, `Url::scheme` and `Url::path`: parsing
/// depends on the input string alone (no base URL is supplied), `scheme()`
/// returns the scheme in lower case without the `:` delimiter, and `path()`
/// the percent-encoded path.
#[verifier::external_body]
pub(crate) fn parse_location(s: &str) -> (r: Option<Location>)
    ensures
        r is Some <==> url_ok(s@),
        r matches Some(loc) ==> loc.scheme@ == url_scheme(s@) && loc.path@ == url_path(s@),
{
    match url::Url::parse(s) {
        Ok(u) => {
            let scheme = u.scheme().to_string();
            let path = u.path().to_string();
            Some(Location { scheme, path })
        },
        Err(_) => None,
    }
}

} // verus!
