//! The one source of chance: which piece enters next.

use rand::Rng;
use vstd::prelude::*;

verus! {

/// Draws a number below `bound` from the thread's random number generator,
/// as `rand::thread_rng().gen_range(0..bound)` gives it. The generator
/// promises a value of the range and rejects an empty one; nothing is said
/// here of how the values are spread, and two draws may differ.
#[verifier::external_body]
pub(crate) fn random_below(bound: usize) -> (drawn: usize)
    requires
        0 < bound,
    ensures
        drawn < bound,
{
    rand::thread_rng().gen_range(0..bound)
}

} // verus!
