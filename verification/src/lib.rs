//! Core logic of a small match/merge puzzle: cells fall down a fixed
//! lattice, the player merges adjacent same-phase cells, a corruption
//! trait propagates probabilistically, and a mood state machine drives
//! per-cell animation indices.

pub mod animate;
pub mod cell;
pub mod corruption;
pub mod gravity;
pub mod grid;
pub mod neighbors;
pub mod rng;
pub mod select;
pub mod spawn;
pub mod tick;
pub mod world;
