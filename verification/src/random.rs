//! The library's single source of randomness, kept behind one trusted
//! wrapper so every caller states what holds of any outcome.

use rand::Rng;
use vstd::prelude::*;

verus! {

/// Relies on `rand::Rng::gen_range` over the half-open integer range
/// `lo..hi`: it returns a value uniformly distributed in that range and
/// panics only when the range is empty, which the precondition rules out.
#[verifier::external_body]
pub(crate) fn draw_in(lo: i32, hi: i32) -> (r: i32)
    requires
        lo < hi,
    ensures
        lo <= r < hi,
{
    rand::thread_rng().gen_range(lo..hi)
}

} // verus!
