//! The corruption propagation rule: merging two cells with equal traits
//! keeps the trait; merging mixed traits usually corrupts, with a small
//! chance of purification.

use vstd::prelude::*;
use crate::rng;

verus! {

/// The mismatch draw has this many equally likely outcomes ...
pub const PROPAGATE_DEN: u32 = 10;
/// ... of which this many yield a corrupted result (probability 9/10).
pub const PROPAGATE_NUM: u32 = 9;
/// A spawn draw has this many equally likely outcomes ...
pub const SPAWN_DEN: u32 = 10;
/// ... of which this many spawn the cell corrupted (probability 7/10).
pub const SPAWN_NUM: u32 = 7;

/// What merging traits `a` and `b` yields, given the uniform draw
/// `roll` from `0..PROPAGATE_DEN`: equal traits pass through untouched,
/// mixed traits corrupt on `PROPAGATE_NUM` of the outcomes.
pub open spec fn spec_propagate(a: bool, b: bool, roll: int) -> bool {
    if a == b {
        a
    } else {
        roll < PROPAGATE_NUM
    }
}

/// The propagation rule with the randomness injected: fully
/// deterministic in its arguments.
pub fn propagate_with(a: bool, b: bool, roll: u32) -> (r: bool)
    requires
        roll < PROPAGATE_DEN,
    ensures
        r == spec_propagate(a, b, roll as int),
        a == b ==> r == a,
{
    if a == b {
        a
    } else {
        roll < PROPAGATE_NUM
    }
}

/// The propagation rule drawing its own randomness. On equal traits the
/// result is that trait, with no randomness involved; on mixed traits
/// either outcome is possible.
pub fn propagate(a: bool, b: bool) -> (r: bool)
    ensures
        a == b ==> r == a,
{
    let roll = rng::rand_below(PROPAGATE_DEN);
    propagate_with(a, b, roll)
}

} // verus!
