//! Rules core of a turn-based creature-battling simulator.
//!
//! The library computes derived combat statistics, resolves type-effectiveness
//! and status-effect interactions, and produces damage values for a single
//! attack resolution. Content records (types, species, moves, status
//! conditions, natures) are plain data handed in by the caller; identifiers
//! are byte strings compared for equality.

use vstd::prelude::*;

pub mod bytes;
pub mod moves;
pub mod numeric;
pub mod parsing;
pub mod pokemon;
pub mod random;
pub mod serialization;
pub mod stats;
pub mod status;
pub mod types;

verus! {

/// A content record addressed by a stable byte-string identifier.
pub trait Identifiable {
    /// The record's identifier, as a mathematical byte sequence.
    spec fn spec_id(&self) -> Seq<u8>;

    /// A fresh copy of the record's identifier.
    fn id(&self) -> (r: Vec<u8>)
        ensures
            r@ == self.spec_id(),
    ;
}

} // verus!
