//! The fuzzy match engine: intersecting the automaton with the index.
//!
//! Matching is exactly the index's ordered walk under the automaton's
//! acceptance; both sides operate on the raw bytes of the keys. This
//! module states and proves the joint guarantees callers rely on: the
//! result is a deterministic function of index and automaton, its keys
//! are strictly ascending, and a key is in the result exactly when its
//! edit distance to the query is within the automaton's bound.

use vstd::prelude::*;

use crate::automaton::Automaton;
use crate::distance::{edit_dist, lemma_edit_dist_self};
use crate::index::{spec_search, view_matches, Index};
use crate::order::{lex_less, strictly_sorted};

verus! {

/// `t` is a (key, identifiers) pair of the index whose key the
/// automaton accepts.
pub open spec fn from_index(
    keys: Seq<Seq<u8>>,
    vals: Seq<Seq<u64>>,
    q: Seq<u8>,
    d: nat,
    t: (Seq<u8>, Seq<u64>),
) -> bool {
    exists|i: int|
        #![trigger keys[i], vals[i]]
        0 <= i < keys.len() && i < vals.len() && t.0 == keys[i] && t.1 == vals[i] && edit_dist(
            keys[i],
            q,
        ) <= d
}

/// Every result pair is an index entry whose key the automaton accepts.
pub proof fn lemma_search_from_index(keys: Seq<Seq<u8>>, vals: Seq<Seq<u64>>, q: Seq<u8>, d: nat)
    ensures
        forall|j: int|
            0 <= j < spec_search(keys, vals, q, d).len() ==> from_index(
                keys,
                vals,
                q,
                d,
                #[trigger] spec_search(keys, vals, q, d)[j],
            ),
    decreases keys.len(),
{
    if keys.len() == 0 || vals.len() == 0 {
    } else {
        let kd = keys.drop_first();
        let vd = vals.drop_first();
        let r = spec_search(keys, vals, q, d);
        let rest = spec_search(kd, vd, q, d);
        lemma_search_from_index(kd, vd, q, d);
        assert forall|j: int| 0 <= j < r.len() implies from_index(keys, vals, q, d, r[j]) by {
            if edit_dist(keys.first(), q) <= d && j == 0 {
                assert(r[0] == (keys[0], vals[0]));
            } else {
                let jr = if edit_dist(keys.first(), q) <= d {
                    j - 1
                } else {
                    j
                };
                assert(r[j] == rest[jr]);
                assert(from_index(kd, vd, q, d, rest[jr]));
                let i = choose|i: int|
                    #![trigger kd[i], vd[i]]
                    0 <= i < kd.len() && i < vd.len() && rest[jr].0 == kd[i] && rest[jr].1 == vd[i]
                        && edit_dist(kd[i], q) <= d;
                assert(kd[i] == keys[i + 1]);
                assert(vd[i] == vals[i + 1]);
            }
        }
    }
}

/// Every index entry whose key the automaton accepts is in the result.
pub proof fn lemma_search_complete(
    keys: Seq<Seq<u8>>,
    vals: Seq<Seq<u64>>,
    q: Seq<u8>,
    d: nat,
    i: int,
)
    requires
        keys.len() == vals.len(),
        0 <= i < keys.len(),
        edit_dist(keys[i], q) <= d,
    ensures
        spec_search(keys, vals, q, d).contains((keys[i], vals[i])),
    decreases keys.len(),
{
    let r = spec_search(keys, vals, q, d);
    let kd = keys.drop_first();
    let vd = vals.drop_first();
    let rest = spec_search(kd, vd, q, d);
    if i == 0 {
        assert(r[0] == (keys[0], vals[0]));
    } else {
        lemma_search_complete(kd, vd, q, d, i - 1);
        let t = (kd[i - 1], vd[i - 1]);
        assert(t == (keys[i], vals[i]));
        let j = choose|j: int| 0 <= j < rest.len() && rest[j] == t;
        if edit_dist(keys.first(), q) <= d {
            assert(r[j + 1] == rest[j]);
        } else {
            assert(r[j] == rest[j]);
        }
    }
}

/// Result keys come in strictly ascending lexicographic byte order.
pub proof fn lemma_search_ordered(keys: Seq<Seq<u8>>, vals: Seq<Seq<u64>>, q: Seq<u8>, d: nat)
    requires
        strictly_sorted(keys),
    ensures
        forall|j1: int, j2: int|
            0 <= j1 < j2 < spec_search(keys, vals, q, d).len() ==> lex_less(
                #[trigger] spec_search(keys, vals, q, d)[j1].0,
                #[trigger] spec_search(keys, vals, q, d)[j2].0,
            ),
    decreases keys.len(),
{
    if keys.len() == 0 || vals.len() == 0 {
    } else {
        let kd = keys.drop_first();
        let vd = vals.drop_first();
        let r = spec_search(keys, vals, q, d);
        let rest = spec_search(kd, vd, q, d);
        assert(strictly_sorted(kd)) by {
            assert forall|a: int, b: int| 0 <= a < b < kd.len() implies lex_less(
                kd[a],
                kd[b],
            ) by {
                assert(kd[a] == keys[a + 1]);
                assert(kd[b] == keys[b + 1]);
            }
        }
        lemma_search_ordered(kd, vd, q, d);
        lemma_search_from_index(kd, vd, q, d);
        assert forall|j1: int, j2: int| 0 <= j1 < j2 < r.len() implies lex_less(
            r[j1].0,
            r[j2].0,
        ) by {
            if edit_dist(keys.first(), q) <= d {
                if j1 == 0 {
                    assert(r[j2] == rest[j2 - 1]);
                    assert(from_index(kd, vd, q, d, rest[j2 - 1]));
                    let i = choose|i: int|
                        #![trigger kd[i], vd[i]]
                        0 <= i < kd.len() && i < vd.len() && rest[j2 - 1].0 == kd[i] && rest[j2
                            - 1].1 == vd[i] && edit_dist(kd[i], q) <= d;
                    assert(kd[i] == keys[i + 1]);
                    assert(lex_less(keys[0], keys[i + 1]));
                    assert(r[0].0 == keys[0]);
                } else {
                    assert(r[j1] == rest[j1 - 1]);
                    assert(r[j2] == rest[j2 - 1]);
                }
            } else {
                assert(r[j1] == rest[j1]);
                assert(r[j2] == rest[j2]);
            }
        }
    }
}

/// A key is among the result's keys exactly when it is an index key
/// within the automaton's distance bound of the query.
pub proof fn lemma_match_key_iff(idx: Index, q: Seq<u8>, d: nat, k: Seq<u8>)
    requires
        idx.wf(),
    ensures
        (exists|j: int|
            0 <= j < spec_search(idx.keys_view(), idx.vals_view(), q, d).len()
                && #[trigger] spec_search(idx.keys_view(), idx.vals_view(), q, d)[j].0 == k) <==> (
        exists|i: int|
            0 <= i < idx.keys_view().len() && #[trigger] idx.keys_view()[i] == k && edit_dist(
                k,
                q,
            ) <= d),
{
    let keys = idx.keys_view();
    let vals = idx.vals_view();
    let r = spec_search(keys, vals, q, d);
    lemma_search_from_index(keys, vals, q, d);
    if exists|j: int| 0 <= j < r.len() && #[trigger] r[j].0 == k {
        let j = choose|j: int| 0 <= j < r.len() && #[trigger] r[j].0 == k;
        assert(from_index(keys, vals, q, d, r[j]));
        let i = choose|i: int|
            #![trigger keys[i], vals[i]]
            0 <= i < keys.len() && i < vals.len() && r[j].0 == keys[i] && r[j].1 == vals[i]
                && edit_dist(keys[i], q) <= d;
        assert(0 <= i < keys.len() && keys[i] == k && edit_dist(k, q) <= d);
    }
    if exists|i: int| 0 <= i < keys.len() && #[trigger] keys[i] == k && edit_dist(k, q) <= d {
        let i = choose|i: int|
            0 <= i < keys.len() && #[trigger] keys[i] == k && edit_dist(k, q) <= d;
        lemma_search_complete(keys, vals, q, d, i);
        let j = choose|j: int| 0 <= j < r.len() && r[j] == (keys[i], vals[i]);
        assert(r[j].0 == k);
    }
}

/// Querying with an indexed key always returns that key, whatever the
/// bound: the key is at distance zero from itself.
pub proof fn lemma_exact_match_included(idx: Index, q: Seq<u8>, d: nat, i: int)
    requires
        idx.wf(),
        0 <= i < idx.keys_view().len(),
        idx.keys_view()[i] == q,
    ensures
        spec_search(idx.keys_view(), idx.vals_view(), q, d).contains(
            (idx.keys_view()[i], idx.vals_view()[i]),
        ),
{
    lemma_edit_dist_self(q);
    lemma_search_complete(idx.keys_view(), idx.vals_view(), q, d, i);
}

/// Runs the automaton over the index: exactly `index.search(aut)`, the
/// join point where the index's byte-order walk and the automaton's
/// byte-level acceptance meet. The result is a pure function of the
/// two arguments, so repeated calls on the same index and query yield
/// identical sequences.
pub fn fuzzy_match(index: &Index, aut: &Automaton) -> (r: Vec<(Vec<u8>, Vec<u64>)>)
    requires
        index.wf(),
        aut.wf(),
    ensures
        view_matches(r@) == spec_search(
            index.keys_view(),
            index.vals_view(),
            aut.query@,
            aut.max_distance as nat,
        ),
{
    index.search(aut)
}

} // verus!
