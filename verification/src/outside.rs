//! Trusted views of the outside calls the service makes.
//!
//! Two request-handling steps are delegated: decoding the request
//! target's query string, and lower-casing the query. Each call's
//! result is a function of its argument alone, so each gets a named
//! result that the callers' contracts are stated over.

use vstd::prelude::*;

use crate::service::pairs_deep;

verus! {

/// The decoded query-string pairs of a request target, or nothing when
/// the target does not parse as a URL against a fixed base origin.
pub uninterp spec fn target_query_pairs(target: Seq<char>) -> Option<Seq<(Seq<char>, Seq<char>)>>;

/// Relies on url::Url::parse and url::Url::query_pairs: parsing the
/// request target against a fixed base origin, then decoding its query
/// string as application/x-www-form-urlencoded (key, value) pairs.
/// Both depend on the target string alone.
#[verifier::external_body]
pub(crate) fn parse_target_query_pairs(target: &str) -> (r: Option<Vec<(String, String)>>)
    ensures
        r is Some <==> target_query_pairs(target@) is Some,
        r matches Some(ps) ==> target_query_pairs(target@) == Some(pairs_deep(ps@)),
{
    let full = format!("http://query.invalid{}", target);
    match url::Url::parse(&full) {
        Ok(u) => Some(u.query_pairs().map(|(k, v)| (k.into_owned(), v.into_owned())).collect()),
        Err(_) => None,
    }
}

/// The lower-cased form of a string's characters.
pub uninterp spec fn lower_of(s: Seq<char>) -> Seq<char>;

/// Relies on str::to_lowercase: the result depends on the characters
/// alone.
#[verifier::external_body]
pub(crate) fn lowercase(s: &str) -> (r: String)
    ensures
        r@ == lower_of(s@),
{
    s.to_lowercase()
}

} // verus!
