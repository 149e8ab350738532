//! The verified boundary around the random number generator.

use rand::Rng;
use vstd::prelude::*;

verus! {

/// Relies on rand::Rng::gen_range over the range `0..bound`: it panics
/// only when the range is empty, and otherwise returns a value of the
/// range. Nothing more is assumed of the draw.
#[verifier::external_body]
pub(crate) fn random_below(bound: u64) -> (r: u64)
    requires
        bound > 0,
    ensures
        r < bound,
{
    rand::thread_rng().gen_range(0..bound)
}

} // verus!
