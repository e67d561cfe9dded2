//! Edit-distance acceptor for a fixed query.
//!
//! An `Automaton` accepts exactly the byte strings whose edit distance
//! to its query is within its bound. A state is the classic
//! dynamic-programming row over the query for the bytes read so far,
//! with every entry capped at `bound + 1`, so the working values stay
//! tiny whatever the key and query lengths are. States advance one
//! byte at a time, which lets the index walk share states between keys
//! with a common prefix.

use vstd::prelude::*;

use crate::distance::{all_prefixes_exceed, edit_dist, lemma_edit_dist_step, min3};
use crate::Error;

verus! {

/// Largest supported edit-distance bound; larger bounds are rejected to
/// keep the acceptor's cost under control.
pub const MAX_DISTANCE_CEILING: u8 = 2;

/// Finite acceptor for "within `max_distance` edits of `query`".
#[derive(Debug)]
pub struct Automaton {
    /// The query, as the raw bytes keys are matched against.
    pub query: Vec<u8>,
    /// Unit-cost edit operations allowed between query and key.
    pub max_distance: u8,
}

/// `x` clipped from above at `cap`.
pub open spec fn capped(x: nat, cap: nat) -> nat {
    if x <= cap {
        x
    } else {
        cap
    }
}

impl Automaton {
    /// The bound is within the supported ceiling.
    pub open spec fn wf(self) -> bool {
        self.max_distance <= MAX_DISTANCE_CEILING
    }

    /// What the acceptor recognizes: keys within `max_distance` of the query.
    pub open spec fn accepts_spec(self, key: Seq<u8>) -> bool {
        edit_dist(key, self.query@) <= self.max_distance
    }

    /// `row` is the automaton's state after reading `p`: entry `j` is
    /// the edit distance of `p` to the query's first `j` bytes, capped
    /// one past the bound.
    pub open spec fn row_ok(self, row: Seq<u8>, p: Seq<u8>) -> bool {
        &&& row.len() == self.query@.len() + 1
        &&& forall|j: int|
            0 <= j < row.len() ==> #[trigger] row[j] as nat == capped(
                edit_dist(p, self.query@.take(j)),
                self.max_distance as nat + 1,
            )
    }

    /// Builds the acceptor, rejecting bounds above the supported ceiling.
    pub fn build(query: Vec<u8>, max_distance: u8) -> (r: Result<Automaton, Error>)
        ensures
            max_distance <= MAX_DISTANCE_CEILING ==> (r matches Ok(a) && a.query@ == query@
                && a.max_distance == max_distance),
            max_distance > MAX_DISTANCE_CEILING ==> (r matches Err(e) && e
                == Error::InvalidAutomatonParameters),
    {
        if max_distance > MAX_DISTANCE_CEILING {
            Err(Error::InvalidAutomatonParameters)
        } else {
            Ok(Automaton { query, max_distance })
        }
    }

    /// The start state: no key bytes read yet.
    pub fn start_row(&self) -> (r: Vec<u8>)
        requires
            self.wf(),
        ensures
            self.row_ok(r@, Seq::<u8>::empty()),
    {
        let m = self.query.len();
        let cap: u8 = self.max_distance + 1;
        let mut row: Vec<u8> = Vec::new();
        while row.len() <= m
            invariant
                m == self.query@.len(),
                self.max_distance <= MAX_DISTANCE_CEILING,
                cap == self.max_distance + 1,
                row@.len() <= m + 1,
                forall|t: int|
                    0 <= t < row@.len() ==> #[trigger] row@[t] as nat == capped(
                        edit_dist(Seq::<u8>::empty(), self.query@.take(t)),
                        cap as nat,
                    ),
            decreases m + 1 - row@.len(),
        {
            let j = row.len();
            let v: u8 = if j < cap as usize {
                j as u8
            } else {
                cap
            };
            proof {
                assert(self.query@.take(j as int).len() == j);
            }
            row.push(v);
        }
        row
    }

    /// Advances a state by one key byte.
    pub fn step_row(&self, row: &Vec<u8>, c: u8, Ghost(p): Ghost<Seq<u8>>) -> (r: Vec<u8>)
        requires
            self.wf(),
            self.row_ok(row@, p),
        ensures
            self.row_ok(r@, p.push(c)),
    {
        let m = self.query.len();
        let cap: u8 = self.max_distance + 1;
        let ghost pc = p.push(c);
        let mut new_row: Vec<u8> = Vec::new();
        let first: u8 = if row[0] < cap {
            row[0] + 1
        } else {
            cap
        };
        proof {
            assert(self.query@.take(0) =~= Seq::<u8>::empty());
            assert(edit_dist(pc, self.query@.take(0)) == pc.len());
            assert(edit_dist(p, self.query@.take(0)) == p.len());
        }
        new_row.push(first);
        while new_row.len() <= m
            invariant
                m == self.query@.len(),
                self.max_distance <= MAX_DISTANCE_CEILING,
                cap == self.max_distance + 1,
                pc == p.push(c),
                self.row_ok(row@, p),
                1 <= new_row@.len() <= m + 1,
                forall|t: int|
                    0 <= t < new_row@.len() ==> #[trigger] new_row@[t] as nat == capped(
                        edit_dist(pc, self.query@.take(t)),
                        cap as nat,
                    ),
            decreases m + 1 - new_row@.len(),
        {
            let j = new_row.len();
            let dcost: u8 = if c == self.query[j - 1] {
                0
            } else {
                1
            };
            let a1: u8 = if row[j] < cap {
                row[j] + 1
            } else {
                cap
            };
            let a2: u8 = if new_row[j - 1] < cap {
                new_row[j - 1] + 1
            } else {
                cap
            };
            let a3: u8 = if row[j - 1] + dcost < cap {
                row[j - 1] + dcost
            } else {
                cap
            };
            let mut v: u8 = a1;
            if a2 < v {
                v = a2;
            }
            if a3 < v {
                v = a3;
            }
            proof {
                lemma_edit_dist_step(p, c, self.query@, j as int);
                let q = self.query@;
                let dc: nat = if c == q[j - 1] {
                    0nat
                } else {
                    1nat
                };
                let true_val = min3(
                    edit_dist(p, q.take(j as int)) + 1,
                    edit_dist(pc, q.take(j as int - 1)) + 1,
                    edit_dist(p, q.take(j as int - 1)) + dc,
                );
                assert(edit_dist(pc, q.take(j as int)) == true_val);
                assert(a1 as nat == capped(edit_dist(p, q.take(j as int)) + 1, cap as nat));
                assert(a2 as nat == capped(edit_dist(pc, q.take(j as int - 1)) + 1, cap as nat));
                assert(a3 as nat == capped(edit_dist(p, q.take(j as int - 1)) + dc, cap as nat));
                assert(v as nat == capped(true_val, cap as nat));
            }
            new_row.push(v);
        }
        new_row
    }

    /// Whether a state is accepting: the bytes read so far are within
    /// the bound of the whole query.
    pub fn row_accepts(&self, row: &Vec<u8>, Ghost(p): Ghost<Seq<u8>>) -> (r: bool)
        requires
            self.wf(),
            self.row_ok(row@, p),
        ensures
            r == (edit_dist(p, self.query@) <= self.max_distance),
    {
        proof {
            assert(self.query@.take(self.query@.len() as int) =~= self.query@);
        }
        row[self.query.len()] <= self.max_distance
    }

    /// Whether any extension of the bytes read so far can still match:
    /// some entry of the state is within the bound. When this is
    /// false, the whole subtree below the current prefix is dead.
    pub fn can_match(&self, row: &Vec<u8>, Ghost(p): Ghost<Seq<u8>>) -> (r: bool)
        requires
            self.wf(),
            self.row_ok(row@, p),
        ensures
            r == !all_prefixes_exceed(p, self.query@, self.max_distance as nat),
    {
        let mut j: usize = 0;
        while j < row.len()
            invariant
                self.wf(),
                self.row_ok(row@, p),
                j <= row@.len(),
                forall|t: int| 0 <= t < j ==> #[trigger] row@[t] > self.max_distance,
            decreases row@.len() - j,
        {
            if row[j] <= self.max_distance {
                proof {
                    assert(row@[j as int] as nat == capped(
                        edit_dist(p, self.query@.take(j as int)),
                        self.max_distance as nat + 1,
                    ));
                    assert(edit_dist(p, self.query@.take(j as int)) <= self.max_distance);
                }
                return true;
            }
            j = j + 1;
        }
        proof {
            assert forall|t: int| 0 <= t <= self.query@.len() implies edit_dist(
                p,
                #[trigger] self.query@.take(t),
            ) > self.max_distance by {
                assert(row@[t] > self.max_distance);
                assert(row@[t] as nat == capped(
                    edit_dist(p, self.query@.take(t)),
                    self.max_distance as nat + 1,
                ));
            }
        }
        false
    }

    /// Decides whether `key` is within `max_distance` edits of the query.
    pub fn accepts(&self, key: &Vec<u8>) -> (r: bool)
        requires
            self.wf(),
        ensures
            r == self.accepts_spec(key@),
    {
        let mut row = self.start_row();
        let mut i: usize = 0;
        while i < key.len()
            invariant
                self.wf(),
                i <= key@.len(),
                self.row_ok(row@, key@.take(i as int)),
            decreases key@.len() - i,
        {
            proof {
                assert(key@.take(i as int).push(key@[i as int]) =~= key@.take(i + 1));
            }
            row = self.step_row(&row, key[i], Ghost(key@.take(i as int)));
            i = i + 1;
        }
        proof {
            assert(key@.take(key@.len() as int) =~= key@);
        }
        self.row_accepts(&row, Ghost(key@))
    }
}

} // verus!
