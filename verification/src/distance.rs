//! Edit distance between byte strings.
//!
//! The distance counts single-byte insertions, deletions and
//! substitutions, each of unit cost. It is the acceptance criterion of
//! the query automaton: a key matches a query when their distance is
//! within the query's bound.

use vstd::prelude::*;

verus! {

/// The least of three naturals.
pub open spec fn min3(a: nat, b: nat, c: nat) -> nat {
    if a <= b && a <= c {
        a
    } else if b <= c {
        b
    } else {
        c
    }
}

/// Minimum number of single-byte insertions, deletions or substitutions
/// turning `a` into `b`.
pub open spec fn edit_dist(a: Seq<u8>, b: Seq<u8>) -> nat
    decreases a.len() + b.len(),
{
    if a.len() == 0 {
        b.len()
    } else if b.len() == 0 {
        a.len()
    } else {
        let step = if a.last() == b.last() {
            0nat
        } else {
            1nat
        };
        min3(
            edit_dist(a.drop_last(), b) + 1,
            edit_dist(a, b.drop_last()) + 1,
            edit_dist(a.drop_last(), b.drop_last()) + step,
        )
    }
}

/// A byte string is at distance zero from itself.
pub proof fn lemma_edit_dist_self(a: Seq<u8>)
    ensures
        edit_dist(a, a) == 0,
    decreases a.len(),
{
    if a.len() > 0 {
        lemma_edit_dist_self(a.drop_last());
    }
}

/// The distance is symmetric in its arguments.
pub proof fn lemma_edit_dist_sym(a: Seq<u8>, b: Seq<u8>)
    ensures
        edit_dist(a, b) == edit_dist(b, a),
    decreases a.len() + b.len(),
{
    if a.len() > 0 && b.len() > 0 {
        lemma_edit_dist_sym(a.drop_last(), b);
        lemma_edit_dist_sym(a, b.drop_last());
        lemma_edit_dist_sym(a.drop_last(), b.drop_last());
    }
}

/// Unfolds the distance of `p.push(c)` against a prefix `q.take(j)` into
/// the three dynamic-programming alternatives the automaton computes.
pub proof fn lemma_edit_dist_step(p: Seq<u8>, c: u8, q: Seq<u8>, j: int)
    requires
        1 <= j <= q.len(),
    ensures
        edit_dist(p.push(c), q.take(j)) == min3(
            edit_dist(p, q.take(j)) + 1,
            edit_dist(p.push(c), q.take(j - 1)) + 1,
            edit_dist(p, q.take(j - 1)) + if c == q[j - 1] {
                0nat
            } else {
                1nat
            },
        ),
{
    let a = p.push(c);
    let b = q.take(j);
    assert(a.len() == p.len() + 1);
    assert(b.len() == j);
    assert(a.drop_last() =~= p);
    assert(b.drop_last() =~= q.take(j - 1));
    assert(a.last() == c);
    assert(b.last() == q[j - 1]);
}

/// Every prefix of the query is already beyond `d` edits from `p`: no
/// extension of `p` can come within `d` of the whole query.
pub open spec fn all_prefixes_exceed(p: Seq<u8>, q: Seq<u8>, d: nat) -> bool {
    forall|j: int| 0 <= j <= q.len() ==> edit_dist(p, #[trigger] q.take(j)) > d
}

proof fn lemma_exceed_entry(p: Seq<u8>, c: u8, q: Seq<u8>, d: nat, j: int)
    requires
        all_prefixes_exceed(p, q, d),
        0 <= j <= q.len(),
    ensures
        edit_dist(p.push(c), q.take(j)) > d,
    decreases j,
{
    if j == 0 {
        assert(q.take(0) =~= Seq::<u8>::empty());
        assert(edit_dist(p.push(c), q.take(0)) == p.len() + 1);
        assert(edit_dist(p, q.take(0)) == p.len());
    } else {
        lemma_exceed_entry(p, c, q, d, j - 1);
        lemma_edit_dist_step(p, c, q, j);
    }
}

/// A dead prefix stays dead after reading one more byte.
pub proof fn lemma_exceed_step(p: Seq<u8>, c: u8, q: Seq<u8>, d: nat)
    requires
        all_prefixes_exceed(p, q, d),
    ensures
        all_prefixes_exceed(p.push(c), q, d),
{
    assert forall|j: int| 0 <= j <= q.len() implies edit_dist(p.push(c), #[trigger] q.take(j))
        > d by {
        lemma_exceed_entry(p, c, q, d, j);
    }
}

/// No extension of a dead prefix is within `d` edits of the query, so
/// a walk may abandon the whole subtree below it.
pub proof fn lemma_exceed_extension(p: Seq<u8>, e: Seq<u8>, q: Seq<u8>, d: nat)
    requires
        all_prefixes_exceed(p, q, d),
    ensures
        edit_dist(p + e, q) > d,
    decreases e.len(),
{
    if e.len() == 0 {
        assert(p + e =~= p);
        assert(q.take(q.len() as int) =~= q);
    } else {
        lemma_exceed_step(p, e[0], q, d);
        lemma_exceed_extension(p.push(e[0]), e.skip(1), q, d);
        assert(p.push(e[0]) + e.skip(1) =~= p + e);
    }
}

} // verus!
