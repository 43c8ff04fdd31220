//! Base-endpoint validation and target-URL resolution.
//!
//! The configured base endpoint must be a URI the HTTP transport accepts;
//! validation is delegated to the transport's own parser. The absolute target
//! of a call is the base endpoint joined with the request's path and query
//! string by plain concatenation.

use vstd::prelude::*;
use vstd::string::StringExecFns;

verus! {

/// Whether `http_req`'s URI parser accepts the string: true exactly on the
/// inputs from which the transport can build a request URI.
pub uninterp spec fn uri_ok(s: Seq<char>) -> bool;

/// Relies on `http_req::uri::Uri`'s `TryFrom<&str>` impl: whether the parser
/// returns `Ok` depends on the characters of `s` alone. ASCII input keeps the
/// parser's byte indexing on character boundaries, so the call cannot panic.
#[verifier::external_body]
pub(crate) fn uri_accepted(s: &str) -> (r: bool)
    requires
        s.is_ascii(),
    ensures
        r == uri_ok(s@),
{
    http_req::uri::Uri::try_from(s).is_ok()
}

/// A base endpoint is usable when it is ASCII and the transport's URI parser
/// accepts it.
pub open spec fn spec_base_usable(base: Seq<char>) -> bool {
    vstd::utf8::is_ascii_chars(base) && uri_ok(base)
}

/// Checks a base endpoint against `spec_base_usable`.
pub fn base_usable(base: &str) -> (r: bool)
    ensures
        r == spec_base_usable(base@),
{
    if base.is_ascii() {
        uri_accepted(base)
    } else {
        false
    }
}

/// The absolute target of a call: the base endpoint, then the path, then --
/// when a query string is present -- a `?` and the query string.
pub open spec fn spec_target_url(base: Seq<char>, path: Seq<char>, query: Seq<char>) -> Seq<char> {
    if query.len() == 0 {
        base + path
    } else {
        base + path + seq!['?'] + query
    }
}

/// Joins base endpoint, path and query string into the absolute target URL.
pub fn target_url(base: &str, path: &str, query: &str) -> (r: String)
    ensures
        r@ == spec_target_url(base@, path@, query@),
{
    let mut url = base.to_owned();
    url.append(path);
    if !query.is_empty() {
        url.append("?");
        proof {
            reveal_strlit("?");
            assert(("?")@ =~= seq!['?']);
        }
        url.append(query);
    }
    proof {
        assert(url@ =~= spec_target_url(base@, path@, query@));
    }
    url
}

} // verus!
