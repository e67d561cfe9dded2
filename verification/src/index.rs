//! The immutable ordered key index.
//!
//! An `Index` maps strictly ascending byte-string keys to sequences of
//! 64-bit identifiers. It is deserialized once, at startup, from two
//! buffers: the key buffer holds a little-endian 32-bit key count
//! followed by length-prefixed keys; the value buffer holds a
//! little-endian 32-bit entry count followed by, per entry, a 32-bit
//! identifier count and that many little-endian 64-bit identifiers.
//! The entries pair with the keys by rank. Loading fails with
//! `Error::CorruptIndex` when either buffer is malformed or truncated,
//! when the two counts disagree, or when the keys are not strictly
//! ascending.

use vstd::prelude::*;
use vstd::slice::{slice_subrange, slice_to_vec};

use crate::automaton::Automaton;
use crate::distance::{edit_dist, lemma_exceed_extension};
use crate::order::{
    adjacent_sorted, lemma_adjacent_sorted_is_strict, lex_less, lex_less_bytes, strictly_sorted,
};
use crate::Error;

verus! {

/// The 32-bit little-endian integer at `pos` in `b`.
pub open spec fn le32_at(b: Seq<u8>, pos: int) -> u32
    recommends
        0 <= pos,
        pos + 4 <= b.len(),
{
    (b[pos] as u32) | ((b[pos + 1] as u32) << 8) | ((b[pos + 2] as u32) << 16) | ((b[pos + 3]
        as u32) << 24)
}

/// The 64-bit little-endian integer at `pos` in `b`.
pub open spec fn le64_at(b: Seq<u8>, pos: int) -> u64
    recommends
        0 <= pos,
        pos + 8 <= b.len(),
{
    (b[pos] as u64) | ((b[pos + 1] as u64) << 8) | ((b[pos + 2] as u64) << 16) | ((b[pos + 3]
        as u64) << 24) | ((b[pos + 4] as u64) << 32) | ((b[pos + 5] as u64) << 40) | ((b[pos + 6]
        as u64) << 48) | ((b[pos + 7] as u64) << 56)
}

fn read_le32(b: &Vec<u8>, pos: usize) -> (r: u32)
    requires
        pos + 4 <= b@.len(),
    ensures
        r == le32_at(b@, pos as int),
{
    let total = b.len();
    proof {
        assert(total == b@.len());
    }
    (b[pos] as u32) | ((b[pos + 1] as u32) << 8) | ((b[pos + 2] as u32) << 16) | ((b[pos + 3]
        as u32) << 24)
}

fn read_le64(b: &Vec<u8>, pos: usize) -> (r: u64)
    requires
        pos + 8 <= b@.len(),
    ensures
        r == le64_at(b@, pos as int),
{
    let total = b.len();
    proof {
        assert(total == b@.len());
    }
    (b[pos] as u64) | ((b[pos + 1] as u64) << 8) | ((b[pos + 2] as u64) << 16) | ((b[pos + 3]
        as u64) << 24) | ((b[pos + 4] as u64) << 32) | ((b[pos + 5] as u64) << 40) | ((b[pos + 6]
        as u64) << 48) | ((b[pos + 7] as u64) << 56)
}

/// Parses `n` length-prefixed keys starting at `pos`; yields the keys
/// and the position after the last one.
pub open spec fn parse_keys_at(b: Seq<u8>, pos: int, n: nat) -> Option<(Seq<Seq<u8>>, int)>
    recommends
        0 <= pos,
    decreases n,
{
    if n == 0 {
        Some((Seq::empty(), pos))
    } else if pos + 4 <= b.len() && pos + 4 + le32_at(b, pos) <= b.len() {
        let len = le32_at(b, pos) as int;
        let key = b.subrange(pos + 4, pos + 4 + len);
        match parse_keys_at(b, pos + 4 + len, (n - 1) as nat) {
            Some((rest, end)) => Some((seq![key] + rest, end)),
            None => None,
        }
    } else {
        None
    }
}

/// The whole key buffer: a key count followed by exactly that many keys.
pub open spec fn parse_key_buffer(b: Seq<u8>) -> Option<Seq<Seq<u8>>> {
    if b.len() >= 4 {
        match parse_keys_at(b, 4, le32_at(b, 0) as nat) {
            Some((keys, end)) => if end == b.len() {
                Some(keys)
            } else {
                None
            },
            None => None,
        }
    } else {
        None
    }
}

/// The `count` identifiers laid out from `pos`, 8 bytes each.
pub open spec fn ids_at(b: Seq<u8>, pos: int, count: nat) -> Seq<u64> {
    Seq::new(count, |k: int| le64_at(b, pos + 8 * k))
}

/// Parses `n` identifier sequences starting at `pos`; yields them and
/// the position after the last one.
pub open spec fn parse_vals_at(b: Seq<u8>, pos: int, n: nat) -> Option<(Seq<Seq<u64>>, int)>
    recommends
        0 <= pos,
    decreases n,
{
    if n == 0 {
        Some((Seq::empty(), pos))
    } else if pos + 4 <= b.len() && pos + 4 + 8 * (le32_at(b, pos) as int) <= b.len() {
        let cnt = le32_at(b, pos) as nat;
        let entry = ids_at(b, pos + 4, cnt);
        match parse_vals_at(b, pos + 4 + 8 * (cnt as int), (n - 1) as nat) {
            Some((rest, end)) => Some((seq![entry] + rest, end)),
            None => None,
        }
    } else {
        None
    }
}

/// The whole value buffer: an entry count followed by exactly that many
/// identifier sequences.
pub open spec fn parse_value_buffer(b: Seq<u8>) -> Option<Seq<Seq<u64>>> {
    if b.len() >= 4 {
        match parse_vals_at(b, 4, le32_at(b, 0) as nat) {
            Some((vals, end)) => if end == b.len() {
                Some(vals)
            } else {
                None
            },
            None => None,
        }
    } else {
        None
    }
}

/// What loading the two buffers yields: both parse completely, the
/// counts agree, and the keys are strictly ascending.
pub open spec fn spec_load(kb: Seq<u8>, vb: Seq<u8>) -> Option<(Seq<Seq<u8>>, Seq<Seq<u64>>)> {
    match (parse_key_buffer(kb), parse_value_buffer(vb)) {
        (Some(keys), Some(vals)) => if keys.len() == vals.len() && adjacent_sorted(keys) {
            Some((keys, vals))
        } else {
            None
        },
        _ => None,
    }
}

/// The views of a sequence of byte vectors.
pub open spec fn view_keys(ks: Seq<Vec<u8>>) -> Seq<Seq<u8>> {
    Seq::new(ks.len(), |i: int| ks[i]@)
}

/// The views of a sequence of identifier vectors.
pub open spec fn view_vals(vs: Seq<Vec<u64>>) -> Seq<Seq<u64>> {
    Seq::new(vs.len(), |i: int| vs[i]@)
}

/// The immutable mapping from sorted unique keys to identifier
/// sequences, paired by rank.
#[derive(Debug)]
pub struct Index {
    /// The keys, in strictly ascending lexicographic byte order.
    pub keys: Vec<Vec<u8>>,
    /// The identifier sequence of each key, at the key's rank.
    pub values: Vec<Vec<u64>>,
}

spec fn keys_prefix_inv(b: Seq<u8>, total: nat, acc: Seq<Seq<u8>>, pos: int, rem: nat) -> bool {
    match parse_keys_at(b, pos, rem) {
        Some((rest, end)) => parse_keys_at(b, 4, total) == Some((acc + rest, end)),
        None => parse_keys_at(b, 4, total) is None,
    }
}

spec fn vals_prefix_inv(b: Seq<u8>, total: nat, acc: Seq<Seq<u64>>, pos: int, rem: nat) -> bool {
    match parse_vals_at(b, pos, rem) {
        Some((rest, end)) => parse_vals_at(b, 4, total) == Some((acc + rest, end)),
        None => parse_vals_at(b, 4, total) is None,
    }
}

impl Index {
    /// The keys of the index, as byte sequences.
    pub open spec fn keys_view(self) -> Seq<Seq<u8>> {
        view_keys(self.keys@)
    }

    /// The identifier sequences of the index, by key rank.
    pub open spec fn vals_view(self) -> Seq<Seq<u64>> {
        view_vals(self.values@)
    }

    /// Keys and values pair by rank, and the keys are strictly
    /// ascending (hence unique).
    pub open spec fn wf(self) -> bool {
        &&& self.keys@.len() == self.values@.len()
        &&& strictly_sorted(self.keys_view())
    }

    /// Deserializes the two buffers into an index. Returns
    /// `Error::CorruptIndex` exactly when the buffers do not parse, the
    /// key and value counts disagree, or the keys are out of order.
    pub fn load(key_buffer: &Vec<u8>, value_buffer: &Vec<u8>) -> (r: Result<Index, Error>)
        ensures
            r is Ok <==> spec_load(key_buffer@, value_buffer@) is Some,
            r matches Ok(idx) ==> spec_load(key_buffer@, value_buffer@) == Some(
                (idx.keys_view(), idx.vals_view()),
            ) && idx.wf(),
            r matches Err(e) ==> e == Error::CorruptIndex,
    {
        let keys = match Self::parse_keys(key_buffer) {
            Some(ks) => ks,
            None => {
                return Err(Error::CorruptIndex);
            },
        };
        let values = match Self::parse_values(value_buffer) {
            Some(vs) => vs,
            None => {
                return Err(Error::CorruptIndex);
            },
        };
        if keys.len() != values.len() {
            return Err(Error::CorruptIndex);
        }
        let total = keys.len();
        let adjacent = if total == 0 {
            0
        } else {
            total - 1
        };
        let mut i: usize = 0;
        while i < adjacent
            invariant
                total == keys@.len() <= usize::MAX,
                adjacent <= total,
                total > 0 ==> adjacent == total - 1,
                i <= adjacent,
                keys@.len() == values@.len(),
                parse_key_buffer(key_buffer@) == Some(view_keys(keys@)),
                parse_value_buffer(value_buffer@) == Some(view_vals(values@)),
                forall|t: int|
                    0 <= t < i ==> #[trigger] lex_less(keys@[t]@, keys@[t + 1]@),
            decreases adjacent - i,
        {
            if !lex_less_bytes(&keys[i], &keys[i + 1]) {
                proof {
                    assert(view_keys(keys@)[i as int] == keys@[i as int]@);
                    assert(view_keys(keys@)[i as int + 1] == keys@[i as int + 1]@);
                    assert(!lex_less(view_keys(keys@)[i as int], view_keys(keys@)[i as int + 1]));
                    assert(!adjacent_sorted(view_keys(keys@)));
                    assert(spec_load(key_buffer@, value_buffer@) is None);
                }
                return Err(Error::CorruptIndex);
            }
            i = i + 1;
        }
        proof {
            assert(adjacent_sorted(view_keys(keys@)));
            lemma_adjacent_sorted_is_strict(view_keys(keys@));
        }
        Ok(Index { keys, values })
    }

    fn parse_keys(b: &Vec<u8>) -> (r: Option<Vec<Vec<u8>>>)
        ensures
            r is Some <==> parse_key_buffer(b@) is Some,
            r matches Some(ks) ==> parse_key_buffer(b@) == Some(view_keys(ks@)),
    {
        if b.len() < 4 {
            return None;
        }
        let n = read_le32(b, 0) as usize;
        let mut keys: Vec<Vec<u8>> = Vec::new();
        let mut pos: usize = 4;
        let mut i: usize = 0;
        proof {
            assert(keys_prefix_inv(b@, n as nat, view_keys(keys@), pos as int, n as nat)) by {
                if parse_keys_at(b@, 4, n as nat) is Some {
                    let rest = parse_keys_at(b@, 4, n as nat)->Some_0.0;
                    assert(view_keys(keys@) + rest =~= rest);
                }
            }
        }
        while i < n
            invariant
                4 <= b@.len() <= usize::MAX,
                n == le32_at(b@, 0) as nat,
                i <= n,
                4 <= pos <= b@.len(),
                keys@.len() == i,
                keys_prefix_inv(b@, n as nat, view_keys(keys@), pos as int, (n - i) as nat),
            decreases n - i,
        {
            let ghost rem = (n - i) as nat;
            if b.len() - pos < 4 {
                return None;
            }
            let len = read_le32(b, pos) as usize;
            if b.len() - (pos + 4) < len {
                return None;
            }
            let key = slice_to_vec(slice_subrange(b.as_slice(), pos + 4, pos + 4 + len));
            proof {
                let tail = parse_keys_at(b@, pos as int + 4 + len as int, (rem - 1) as nat);
                if tail is Some {
                    let rest2 = tail->Some_0.0;
                    assert(view_keys(keys@) + (seq![key@] + rest2) =~= view_keys(
                        keys@.push(key),
                    ) + rest2);
                }
            }
            keys.push(key);
            pos = pos + 4 + len;
            i = i + 1;
        }
        proof {
            assert(parse_keys_at(b@, pos as int, 0) == Some::<(Seq<Seq<u8>>, int)>(
                (Seq::empty(), pos as int),
            ));
            assert(view_keys(keys@) + Seq::<Seq<u8>>::empty() =~= view_keys(keys@));
        }
        if pos != b.len() {
            return None;
        }
        Some(keys)
    }

    fn parse_values(b: &Vec<u8>) -> (r: Option<Vec<Vec<u64>>>)
        ensures
            r is Some <==> parse_value_buffer(b@) is Some,
            r matches Some(vs) ==> parse_value_buffer(b@) == Some(view_vals(vs@)),
    {
        if b.len() < 4 {
            return None;
        }
        let n = read_le32(b, 0) as usize;
        let mut vals: Vec<Vec<u64>> = Vec::new();
        let mut pos: usize = 4;
        let mut i: usize = 0;
        proof {
            assert(vals_prefix_inv(b@, n as nat, view_vals(vals@), pos as int, n as nat)) by {
                if parse_vals_at(b@, 4, n as nat) is Some {
                    let rest = parse_vals_at(b@, 4, n as nat)->Some_0.0;
                    assert(view_vals(vals@) + rest =~= rest);
                }
            }
        }
        while i < n
            invariant
                4 <= b@.len() <= usize::MAX,
                n == le32_at(b@, 0) as nat,
                i <= n,
                4 <= pos <= b@.len(),
                vals@.len() == i,
                vals_prefix_inv(b@, n as nat, view_vals(vals@), pos as int, (n - i) as nat),
            decreases n - i,
        {
            let ghost rem = (n - i) as nat;
            if b.len() - pos < 4 {
                return None;
            }
            let cnt = read_le32(b, pos) as usize;
            let after_cnt = pos + 4;
            if (b.len() - after_cnt) / 8 < cnt {
                proof {
                    assert(8 * ((b@.len() - after_cnt as int) / 8) <= b@.len() - after_cnt as int);
                    assert(pos as int + 4 + 8 * (cnt as int) > b@.len());
                }
                return None;
            }
            proof {
                assert(8 * (cnt as int) <= 8 * ((b@.len() - after_cnt as int) / 8));
                assert(8 * ((b@.len() - after_cnt as int) / 8) <= b@.len() - after_cnt as int);
            }
            let mut ids: Vec<u64> = Vec::new();
            let mut k: usize = 0;
            while k < cnt
                invariant
                    b@.len() <= usize::MAX,
                    after_cnt as int + 8 * (cnt as int) <= b@.len(),
                    k <= cnt,
                    ids@.len() == k,
                    forall|s: int|
                        0 <= s < k ==> #[trigger] ids@[s] == le64_at(b@, after_cnt + 8 * s),
                decreases cnt - k,
            {
                let id = read_le64(b, after_cnt + 8 * k);
                ids.push(id);
                k = k + 1;
            }
            proof {
                assert(ids@ =~= ids_at(b@, after_cnt as int, cnt as nat));
                let tail = parse_vals_at(b@, pos as int + 4 + 8 * (cnt as int), (rem - 1) as nat);
                if tail is Some {
                    let rest2 = tail->Some_0.0;
                    assert(view_vals(vals@) + (seq![ids@] + rest2) =~= view_vals(
                        vals@.push(ids),
                    ) + rest2);
                }
            }
            vals.push(ids);
            pos = after_cnt + 8 * cnt;
            i = i + 1;
        }
        proof {
            assert(parse_vals_at(b@, pos as int, 0) == Some::<(Seq<Seq<u64>>, int)>(
                (Seq::empty(), pos as int),
            ));
            assert(view_vals(vals@) + Seq::<Seq<u64>>::empty() =~= view_vals(vals@));
        }
        if pos != b.len() {
            return None;
        }
        Some(vals)
    }
}

/// The matches among `keys`/`vals`, in key order: each key within
/// edit distance `d` of the query bytes `q`, paired with its
/// identifiers.
pub open spec fn spec_search(
    keys: Seq<Seq<u8>>,
    vals: Seq<Seq<u64>>,
    q: Seq<u8>,
    d: nat,
) -> Seq<(Seq<u8>, Seq<u64>)>
    decreases keys.len(),
{
    if keys.len() == 0 || vals.len() == 0 {
        Seq::empty()
    } else {
        let rest = spec_search(keys.drop_first(), vals.drop_first(), q, d);
        if edit_dist(keys.first(), q) <= d {
            seq![(keys.first(), vals.first())] + rest
        } else {
            rest
        }
    }
}

/// The views of a sequence of (key, identifiers) result pairs.
pub open spec fn view_matches(ms: Seq<(Vec<u8>, Vec<u64>)>) -> Seq<(Seq<u8>, Seq<u64>)> {
    Seq::new(ms.len(), |i: int| (ms[i].0@, ms[i].1@))
}

fn copy_bytes(v: &Vec<u8>) -> (r: Vec<u8>)
    ensures
        r@ == v@,
{
    let mut r: Vec<u8> = Vec::new();
    let mut i: usize = 0;
    while i < v.len()
        invariant
            i <= v@.len(),
            r@ =~= v@.take(i as int),
        decreases v@.len() - i,
    {
        r.push(v[i]);
        i = i + 1;
    }
    proof {
        assert(v@.take(v@.len() as int) =~= v@);
    }
    r
}

fn copy_ids(v: &Vec<u64>) -> (r: Vec<u64>)
    ensures
        r@ == v@,
{
    let mut r: Vec<u64> = Vec::new();
    let mut i: usize = 0;
    while i < v.len()
        invariant
            i <= v@.len(),
            r@ =~= v@.take(i as int),
        decreases v@.len() - i,
    {
        r.push(v[i]);
        i = i + 1;
    }
    proof {
        assert(v@.take(v@.len() as int) =~= v@);
    }
    r
}

impl Index {
    /// Walks the keys in ascending order, advancing the automaton's
    /// state byte by byte, and yields every key the automaton accepts,
    /// paired with its identifiers. States are shared between
    /// consecutive keys for the length of their common prefix, so the
    /// walk behaves like a guided descent of the key structure.
    pub fn search(&self, aut: &Automaton) -> (r: Vec<(Vec<u8>, Vec<u64>)>)
        requires
            self.wf(),
            aut.wf(),
        ensures
            view_matches(r@) == spec_search(
                self.keys_view(),
                self.vals_view(),
                aut.query@,
                aut.max_distance as nat,
            ),
    {
        let mut out: Vec<(Vec<u8>, Vec<u64>)> = Vec::new();
        let ghost ks = self.keys_view();
        let ghost vs = self.vals_view();
        let mut rows: Vec<Vec<u8>> = Vec::new();
        let mut prefix: Vec<u8> = Vec::new();
        rows.push(aut.start_row());
        proof {
            assert(ks.skip(0) =~= ks);
            assert(vs.skip(0) =~= vs);
            assert(prefix@.take(0) =~= Seq::<u8>::empty());
        }
        let mut i: usize = 0;
        while i < self.keys.len()
            invariant
                self.wf(),
                aut.wf(),
                ks == self.keys_view(),
                vs == self.vals_view(),
                i <= ks.len(),
                rows@.len() == prefix@.len() + 1,
                forall|l: int|
                    0 <= l < rows@.len() ==> aut.row_ok(#[trigger] rows@[l]@, prefix@.take(l)),
                spec_search(ks, vs, aut.query@, aut.max_distance as nat) =~= view_matches(out@)
                    + spec_search(
                    ks.skip(i as int),
                    vs.skip(i as int),
                    aut.query@,
                    aut.max_distance as nat,
                ),
            decreases ks.len() - i,
        {
            let ghost tail_ks = ks.skip(i as int);
            let ghost tail_vs = vs.skip(i as int);
            proof {
                assert(tail_ks.first() == ks[i as int]);
                assert(tail_vs.first() == vs[i as int]);
                assert(tail_ks.drop_first() =~= ks.skip(i + 1));
                assert(tail_vs.drop_first() =~= vs.skip(i + 1));
            }
            let key = &self.keys[i];
            let ghost kview = ks[i as int];
            proof {
                assert(kview == key@);
            }
            // Reuse the states covering the common prefix of this key
            // and the previous one; drop the rest.
            let mut l: usize = 0;
            while l < prefix.len() && l < key.len() && prefix[l] == key[l]
                invariant
                    l <= prefix@.len(),
                    l <= key@.len(),
                    forall|t: int| 0 <= t < l ==> prefix@[t] == key@[t],
                decreases prefix@.len() - l,
            {
                l = l + 1;
            }
            let ghost old_prefix = prefix@;
            let ghost old_rows = rows@;
            let row_count = rows.len();
            proof {
                assert(row_count == rows@.len());
                assert(l + 1 <= row_count);
            }
            prefix.truncate(l);
            rows.truncate(l + 1);
            proof {
                assert(prefix@ =~= kview.take(l as int));
                assert forall|t: int| 0 <= t < rows@.len() implies aut.row_ok(
                    #[trigger] rows@[t]@,
                    prefix@.take(t),
                ) by {
                    assert(rows@[t]@ == old_rows[t]@);
                    assert(prefix@.take(t) =~= old_prefix.take(t));
                }
                assert(prefix@.take(prefix@.len() as int) =~= prefix@);
            }
            // Advance the shared state over the key's remaining
            // bytes, abandoning the key as soon as the state is dead.
            while prefix.len() < key.len() && aut.can_match(
                &rows[rows.len() - 1],
                Ghost(prefix@),
            )
                invariant
                    self.wf(),
                    aut.wf(),
                    ks == self.keys_view(),
                    i < ks.len(),
                    kview == ks[i as int],
                    key@ == kview,
                    prefix@.len() <= kview.len(),
                    prefix@ == kview.take(prefix@.len() as int),
                    rows@.len() == prefix@.len() + 1,
                    forall|t: int|
                        0 <= t < rows@.len() ==> aut.row_ok(#[trigger] rows@[t]@, prefix@.take(t)),
                    aut.row_ok(rows@[rows@.len() - 1]@, prefix@),
                decreases kview.len() - prefix@.len(),
            {
                let c = key[prefix.len()];
                let row = aut.step_row(&rows[rows.len() - 1], c, Ghost(prefix@));
                let ghost before = prefix@;
                rows.push(row);
                prefix.push(c);
                proof {
                    assert(prefix@ =~= kview.take(prefix@.len() as int));
                    assert forall|t: int| 0 <= t < rows@.len() implies aut.row_ok(
                        #[trigger] rows@[t]@,
                        prefix@.take(t),
                    ) by {
                        if t < rows@.len() - 1 {
                            assert(prefix@.take(t) =~= before.take(t));
                        } else {
                            assert(prefix@.take(t) =~= before.push(c));
                        }
                    }
                    assert(prefix@.take(prefix@.len() as int) =~= prefix@);
                }
            }
            if prefix.len() < key.len() {
                // The state went dead before the key's end: the key and
                // every other key under this prefix are out of range.
                proof {
                    lemma_exceed_extension(
                        prefix@,
                        kview.skip(prefix@.len() as int),
                        aut.query@,
                        aut.max_distance as nat,
                    );
                    assert(prefix@ + kview.skip(prefix@.len() as int) =~= kview);
                    assert(edit_dist(kview, aut.query@) > aut.max_distance);
                }
            } else {
                proof {
                    assert(prefix@ =~= kview);
                }
                if aut.row_accepts(&rows[rows.len() - 1], Ghost(prefix@)) {
                    let matched_key = copy_bytes(&self.keys[i]);
                    let ids = copy_ids(&self.values[i]);
                    proof {
                        assert(view_matches(out@.push((matched_key, ids))) =~= view_matches(out@)
                            + seq![(ks[i as int], vs[i as int])]);
                        assert(view_matches(out@) + (seq![(ks[i as int], vs[i as int])]
                            + spec_search(
                            ks.skip(i + 1),
                            vs.skip(i + 1),
                            aut.query@,
                            aut.max_distance as nat,
                        )) =~= (view_matches(out@) + seq![(ks[i as int], vs[i as int])])
                            + spec_search(
                            ks.skip(i + 1),
                            vs.skip(i + 1),
                            aut.query@,
                            aut.max_distance as nat,
                        ));
                    }
                    out.push((matched_key, ids));
                }
            }
            i = i + 1;
        }
        proof {
            assert(ks.skip(ks.len() as int) =~= Seq::<Seq<u8>>::empty());
            assert(vs.skip(vs.len() as int) =~= Seq::<Seq<u64>>::empty());
            assert(view_matches(out@) + Seq::<(Seq<u8>, Seq<u64>)>::empty() =~= view_matches(
                out@,
            ));
        }
        out
    }
}

} // verus!
