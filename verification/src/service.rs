//! The query service: one logical route over the shared index.
//!
//! A request's target is decoded; the first `q` query parameter, if
//! any, is lower-cased and matched against the index under a
//! length-tiered edit-distance bound, and the matches render as the
//! response body. A target with no `q` parameter yields an empty
//! success response; a target that does not parse yields a client
//! error. Handling never panics, so one malformed request cannot take
//! the service down.

use vstd::prelude::*;
use vstd::pervasive::unreached;
use vstd::string::{StrSliceExecFns, StringExecFns, StringSliceAdditionalSpecFns};
use vstd::utf8::encode_utf8;

use crate::automaton::Automaton;
use crate::distance::edit_dist;
use crate::engine::lemma_match_key_iff;
use crate::Error;
use crate::index::{spec_search, Index};
use crate::outside::{lowercase, lower_of, parse_target_query_pairs, target_query_pairs};
use crate::render::{render_body, spec_render_body};

verus! {

/// Longest query (in Unicode scalars, after lower-casing) matched
/// exactly.
pub const SHORT_QUERY_MAX: usize = 4;

/// Longest query matched with one edit allowed; longer queries get two.
pub const MEDIUM_QUERY_MAX: usize = 8;

/// The length-tiered distance bound: exact up to `SHORT_QUERY_MAX`
/// scalars, one edit up to `MEDIUM_QUERY_MAX`, two beyond.
pub open spec fn spec_distance_bound(len: nat) -> u8 {
    if len <= SHORT_QUERY_MAX {
        0
    } else if len <= MEDIUM_QUERY_MAX {
        1
    } else {
        2
    }
}

/// Picks the edit-distance bound for a query of `len` Unicode scalars.
pub fn distance_bound(len: usize) -> (r: u8)
    ensures
        r == spec_distance_bound(len as nat),
{
    if len <= SHORT_QUERY_MAX {
        0
    } else if len <= MEDIUM_QUERY_MAX {
        1
    } else {
        2
    }
}

/// The views of decoded (key, value) query pairs.
pub open spec fn pairs_deep(ps: Seq<(String, String)>) -> Seq<(Seq<char>, Seq<char>)> {
    Seq::new(ps.len(), |i: int| (ps[i].0@, ps[i].1@))
}

/// The value of the first pair named `q`, if any.
pub open spec fn find_query_param(ps: Seq<(Seq<char>, Seq<char>)>) -> Option<Seq<char>>
    decreases ps.len(),
{
    if ps.len() == 0 {
        None
    } else if ps.first().0 == seq!['q'] {
        Some(ps.first().1)
    } else {
        find_query_param(ps.drop_first())
    }
}

/// The response body for query `q` against `idx`: the rendered matches
/// of the lower-cased query's bytes, under the length-tiered bound.
pub open spec fn spec_match_body(idx: Index, q: Seq<char>) -> Seq<u8> {
    spec_render_body(
        spec_search(
            idx.keys_view(),
            idx.vals_view(),
            encode_utf8(lower_of(q)),
            spec_distance_bound(lower_of(q).len()) as nat,
        ),
    )
}

/// Under the service's policy — the lower-cased query's bytes, matched
/// within the length-tiered bound — a key is among the matches exactly
/// when it is an index key within that bound of the query.
pub proof fn lemma_query_match_iff(idx: Index, q: Seq<char>, k: Seq<u8>)
    requires
        idx.wf(),
    ensures
        ({
            let qb = encode_utf8(lower_of(q));
            let d = spec_distance_bound(lower_of(q).len()) as nat;
            (exists|j: int|
                0 <= j < spec_search(idx.keys_view(), idx.vals_view(), qb, d).len()
                    && #[trigger] spec_search(idx.keys_view(), idx.vals_view(), qb, d)[j].0 == k)
                <==> (exists|i: int|
                0 <= i < idx.keys_view().len() && #[trigger] idx.keys_view()[i] == k
                    && edit_dist(k, qb) <= d)
        }),
{
    lemma_match_key_iff(
        idx,
        encode_utf8(lower_of(q)),
        spec_distance_bound(lower_of(q).len()) as nat,
        k,
    );
}

/// An HTTP-level response: a status code and a body. The body is HTML
/// text, UTF-8; the transport adds the headers.
pub struct Response {
    /// The HTTP status code.
    pub status: u16,
    /// The response body bytes.
    pub body: Vec<u8>,
}

/// Status of a well-formed response.
pub const STATUS_OK: u16 = 200;

/// Status of a response to a request that could not be understood.
pub const STATUS_BAD_REQUEST: u16 = 400;

/// Extracts the first `q` query parameter of the request target.
///
/// Fails with `Error::MalformedRequestTarget` exactly when the target
/// does not parse as a URL; yields nothing when it parses but carries
/// no `q` parameter; yields the parameter's decoded value otherwise.
pub fn extract_query(target: &str) -> (r: Result<Option<String>, Error>)
    ensures
        r is Err <==> target_query_pairs(target@) is None,
        r matches Err(e) ==> e == Error::MalformedRequestTarget,
        target_query_pairs(target@) matches Some(ps) ==> (find_query_param(ps) is None <==> (
        r matches Ok(o) && o is None)),
        target_query_pairs(target@) matches Some(ps) ==> (find_query_param(ps) matches Some(q)
            ==> (r matches Ok(o) && o matches Some(s) && s@ == q)),
{
    let pairs = match parse_target_query_pairs(target) {
        Some(ps) => ps,
        None => {
            return Err(Error::MalformedRequestTarget);
        },
    };
    let ghost psd = pairs_deep(pairs@);
    let q_name: String = String::from_str("q");
    proof {
        reveal_strlit("q");
        assert(q_name@ =~= seq!['q']);
        assert(psd.skip(0) =~= psd);
    }
    let mut i: usize = 0;
    while i < pairs.len()
        invariant
            psd == pairs_deep(pairs@),
            target_query_pairs(target@) == Some(psd),
            i <= psd.len(),
            q_name@ == seq!['q'],
            find_query_param(psd) == find_query_param(psd.skip(i as int)),
        decreases psd.len() - i,
    {
        let p = &pairs[i];
        proof {
            assert(psd.skip(i as int).first() == psd[i as int]);
            assert(psd[i as int] == (pairs@[i as int].0@, pairs@[i as int].1@));
        }
        if p.0 == q_name {
            proof {
                assert(find_query_param(psd) == Some(pairs@[i as int].1@));
            }
            return Ok(Some(p.1.clone()));
        }
        proof {
            assert(psd.skip(i as int).drop_first() =~= psd.skip(i + 1));
        }
        i = i + 1;
    }
    proof {
        assert(psd.skip(psd.len() as int) =~= Seq::<(Seq<char>, Seq<char>)>::empty());
    }
    Ok(None)
}

/// Handles one request, given by its target (path and query string).
///
/// An unparsable target yields status 400 with an empty body; a target
/// without a `q` parameter yields status 200 with an empty body; a
/// target with one yields status 200 and the rendered matches of the
/// lower-cased query.
pub fn handle(index: &Index, target: &str) -> (r: Response)
    requires
        index.wf(),
    ensures
        target_query_pairs(target@) is None ==> r.status == STATUS_BAD_REQUEST && r.body@
            == Seq::<u8>::empty(),
        target_query_pairs(target@) matches Some(ps) ==> (find_query_param(ps) is None
            ==> r.status == STATUS_OK && r.body@ == Seq::<u8>::empty()),
        target_query_pairs(target@) matches Some(ps) ==> (find_query_param(ps) matches Some(q)
            ==> r.status == STATUS_OK && r.body@ == spec_match_body(*index, q)),
{
    let query = match extract_query(target) {
        Err(_) => {
            return Response { status: STATUS_BAD_REQUEST, body: Vec::new() };
        },
        Ok(None) => {
            return Response { status: STATUS_OK, body: Vec::new() };
        },
        Ok(Some(s)) => s,
    };
    let lowered = lowercase(query.as_str());
    let bound = distance_bound(lowered.as_str().unicode_len());
    let query_bytes = lowered.as_str().as_bytes_vec();
    let aut = match Automaton::build(query_bytes, bound) {
        Ok(a) => a,
        Err(_) => unreached(),
    };
    let matches = index.search(&aut);
    let body = render_body(&matches);
    Response { status: STATUS_OK, body }
}

} // verus!
