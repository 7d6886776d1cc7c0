//! The one source of randomness the engine uses.

use vstd::prelude::*;

verus! {

/// Relies on `rand::random_range` over a half-open integer range: the result
/// lies in the range, and the call panics only on an empty range, which the
/// precondition rules out. Nothing more is assumed of the value.
#[verifier::external_body]
pub(crate) fn random_in_range(lo: usize, hi: usize) -> (r: usize)
    requires
        lo < hi,
    ensures
        lo <= r < hi,
{
    rand::random_range(lo..hi)
}

} // verus!
