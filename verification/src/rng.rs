//! The one source of randomness: a uniform draw below a bound. Every
//! probabilistic decision of the game takes such a draw as input.

use vstd::prelude::*;
use rand::Rng;

verus! {

/// Relies on rand::thread_rng and rand::Rng::gen_range: a uniform draw
/// from `0..n`, which lies below `n` and panics only on an empty range
/// (ruled out by the precondition). Nothing more is assumed of it: the
/// value depends on the thread-local generator's state.
#[verifier::external_body]
pub fn rand_below(n: u32) -> (r: u32)
    requires
        n > 0,
    ensures
        r < n,
{
    rand::thread_rng().gen_range(0..n)
}

} // verus!
