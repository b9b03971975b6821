//! The corruption rule and the random draw.

use aberration::corruption::{propagate, propagate_with, PROPAGATE_DEN};
use aberration::rng::rand_below;

#[test]
fn propagate_matching_flags_deterministic() {
    for roll in 0..PROPAGATE_DEN {
        assert_eq!(propagate_with(true, true, roll), true);
        assert_eq!(propagate_with(false, false, roll), false);
    }
    for _ in 0..1000 {
        assert_eq!(propagate(true, true), true);
        assert_eq!(propagate(false, false), false);
    }
}

#[test]
fn propagate_mismatch_follows_roll() {
    for roll in 0..PROPAGATE_DEN {
        let expected = roll < 9;
        assert_eq!(propagate_with(true, false, roll), expected);
        assert_eq!(propagate_with(false, true, roll), expected);
    }
}

#[test]
fn propagate_mismatch_distribution() {
    let trials = 10000;
    let mut trues = 0;
    for _ in 0..trials {
        if propagate(true, false) {
            trues += 1;
        }
    }
    // 0.9 of 10000, within +/- 0.02.
    assert!(trues >= 8800, "fraction too low: {trues}/10000");
    assert!(trues <= 9200, "fraction too high: {trues}/10000");
}

#[test]
fn rand_below_stays_below() {
    for n in [1u32, 2, 7, 10, 3000] {
        for _ in 0..200 {
            assert!(rand_below(n) < n);
        }
    }
}
