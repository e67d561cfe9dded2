//! Fuzzy-match lookup over an immutable ordered key index.
//!
//! The crate loads a compact, serialized key/value index once, and then
//! answers queries: all indexed keys within an adaptive edit-distance
//! bound of the query string, each paired with its stored identifiers.

use vstd::prelude::*;

pub mod automaton;
pub mod distance;
pub mod engine;
pub mod index;
pub mod order;
pub mod outside;
pub mod render;
pub mod service;

verus! {

/// Errors of the lookup core.
#[derive(Clone, Copy, PartialEq, Eq, Debug)]
pub enum Error {
    /// A serialized index buffer is malformed, truncated, or the key and
    /// value counts disagree.
    CorruptIndex,
    /// A requested edit-distance bound exceeds the supported ceiling.
    InvalidAutomatonParameters,
    /// A request target could not be parsed as a URL.
    MalformedRequestTarget,
}

} // verus!
