//! Strict lexicographic order on byte strings.
//!
//! The index stores its keys in strictly ascending lexicographic byte
//! order; this module defines that order, an executable comparison, and
//! the ordering lemmas the rest of the crate builds on.

use vstd::prelude::*;

verus! {

/// `a` comes strictly before `b` in lexicographic byte order.
pub open spec fn lex_less(a: Seq<u8>, b: Seq<u8>) -> bool
    decreases a.len(),
{
    if b.len() == 0 {
        false
    } else if a.len() == 0 {
        true
    } else if a[0] < b[0] {
        true
    } else if a[0] > b[0] {
        false
    } else {
        lex_less(a.skip(1), b.skip(1))
    }
}

/// Executable comparison deciding `lex_less` on byte vectors.
pub fn lex_less_bytes(a: &Vec<u8>, b: &Vec<u8>) -> (r: bool)
    ensures
        r == lex_less(a@, b@),
{
    proof {
        assert(a@.skip(0) =~= a@);
        assert(b@.skip(0) =~= b@);
    }
    let mut i: usize = 0;
    while i < a.len() && i < b.len()
        invariant
            i <= a.len(),
            i <= b.len(),
            lex_less(a@, b@) == lex_less(a@.skip(i as int), b@.skip(i as int)),
        decreases a.len() - i,
    {
        if a[i] < b[i] {
            return true;
        }
        if a[i] > b[i] {
            return false;
        }
        proof {
            assert(a@.skip(i as int).skip(1) =~= a@.skip(i + 1));
            assert(b@.skip(i as int).skip(1) =~= b@.skip(i + 1));
        }
        i = i + 1;
    }
    a.len() < b.len()
}

/// No byte string comes before itself.
pub proof fn lemma_lex_less_irrefl(a: Seq<u8>)
    ensures
        !lex_less(a, a),
    decreases a.len(),
{
    if a.len() > 0 {
        lemma_lex_less_irrefl(a.skip(1));
    }
}

/// The order is transitive.
pub proof fn lemma_lex_less_trans(a: Seq<u8>, b: Seq<u8>, c: Seq<u8>)
    requires
        lex_less(a, b),
        lex_less(b, c),
    ensures
        lex_less(a, c),
    decreases a.len() + b.len() + c.len(),
{
    if a.len() == 0 {
    } else {
        if a[0] == b[0] && b[0] == c[0] {
            lemma_lex_less_trans(a.skip(1), b.skip(1), c.skip(1));
        }
    }
}

/// Strictly ordered byte strings are distinct.
pub proof fn lemma_lex_less_neq(a: Seq<u8>, b: Seq<u8>)
    requires
        lex_less(a, b),
    ensures
        a != b,
{
    if a == b {
        lemma_lex_less_irrefl(a);
    }
}

/// Every adjacent pair of `keys` is strictly ascending.
pub open spec fn adjacent_sorted(keys: Seq<Seq<u8>>) -> bool {
    forall|i: int| 0 <= i && i + 1 < keys.len() ==> #[trigger] lex_less(keys[i], keys[i + 1])
}

/// Every pair of `keys` at positions `i < j` is strictly ascending.
pub open spec fn strictly_sorted(keys: Seq<Seq<u8>>) -> bool {
    forall|i: int, j: int| 0 <= i < j < keys.len() ==> lex_less(keys[i], keys[j])
}

/// Strictly ascending keys are pairwise distinct: the index maps each
/// key at most once.
pub proof fn lemma_sorted_keys_unique(keys: Seq<Seq<u8>>)
    requires
        strictly_sorted(keys),
    ensures
        forall|i: int, j: int| 0 <= i < j < keys.len() ==> keys[i] != keys[j],
{
    assert forall|i: int, j: int| 0 <= i < j < keys.len() implies keys[i] != keys[j] by {
        lemma_lex_less_neq(keys[i], keys[j]);
    }
}

proof fn lemma_chain(keys: Seq<Seq<u8>>, i: int, j: int)
    requires
        adjacent_sorted(keys),
        0 <= i < j < keys.len(),
    ensures
        lex_less(keys[i], keys[j]),
    decreases j - i,
{
    assert(lex_less(keys[j - 1], keys[(j - 1) + 1]));
    if j == i + 1 {
    } else {
        lemma_chain(keys, i, j - 1);
        lemma_lex_less_trans(keys[i], keys[j - 1], keys[j]);
    }
}

/// Adjacent ascending order gives pairwise ascending order.
pub proof fn lemma_adjacent_sorted_is_strict(keys: Seq<Seq<u8>>)
    requires
        adjacent_sorted(keys),
    ensures
        strictly_sorted(keys),
{
    assert forall|i: int, j: int| 0 <= i < j < keys.len() implies lex_less(keys[i], keys[j]) by {
        lemma_chain(keys, i, j);
    }
}

} // verus!
