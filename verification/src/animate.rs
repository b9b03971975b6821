//! The mood / animation state machine: each tick derives every cell's
//! mood — from its trait and neighbours while playing, from the round
//! outcome while ending — and paces its sprite index with two countdown
//! timers: a random idle pause at the range's first frame, then a fixed
//! frame cadence through the range, wrapping back into a fresh pause.

use vstd::prelude::*;
use crate::cell;
use crate::cell::{Cell, Mood};
use crate::rng;
use crate::world::{GameWorld, GameInfo, RoundState, WorldModel};

verus! {

/// The mood a cell shows: during play a function of its trait and its
/// corrupted-neighbour count; during the ending a function of its trait
/// and the recorded outcome.
pub open spec fn spec_mood_for(state: RoundState, info: GameInfo, c: Cell) -> Mood {
    if state == RoundState::Ending {
        cell::spec_mood_ending(c.corrupted, info.current_win_corrupted)
    } else {
        cell::spec_mood_playing(c.corrupted, c.corrupted_neighbors as int)
    }
}

/// A countdown timer after `dt` elapsed milliseconds.
pub open spec fn spec_ticked(remaining: int, dt: int) -> int {
    if remaining > dt {
        remaining - dt
    } else {
        0
    }
}

/// Whether a countdown timer ran out during this very tick.
pub open spec fn spec_just_finished(remaining: int, dt: int) -> bool {
    0 < remaining <= dt
}

/// One animation step of a single cell, `mood` its freshly derived
/// mood and `pause_roll` the idle-pause draw (used only when a fresh
/// pause starts). Out of the mood's range the index snaps to its first
/// frame; at the first frame an expired pause starts the walk; at the
/// last frame the index wraps into a fresh pause; in between, each
/// expiry of the frame timer advances one frame.
pub open spec fn spec_animate(c: Cell, mood: Mood, dt: int, pause_roll: int) -> Cell {
    let pause1 = spec_ticked(c.pause_ms as int, dt);
    let frame1 = spec_ticked(c.frame_ms as int, dt);
    let pause_just = spec_just_finished(c.pause_ms as int, dt);
    let frame_just = spec_just_finished(c.frame_ms as int, dt);
    let first = cell::spec_mood_first(mood);
    let last = cell::spec_mood_last(mood);
    let base = Cell { mood, pause_ms: pause1 as u32, frame_ms: frame1 as u32, ..c };
    if !(first <= c.sprite_index <= last) {
        Cell { sprite_index: first as usize, pause_ms: pause_roll as u32, ..base }
    } else if c.sprite_index == first {
        if pause_just {
            Cell { sprite_index: (c.sprite_index + 1) as usize, frame_ms: cell::FRAME_MS, ..base }
        } else {
            base
        }
    } else if c.sprite_index == last {
        Cell { sprite_index: first as usize, pause_ms: pause_roll as u32, ..base }
    } else if frame_just {
        Cell { sprite_index: (c.sprite_index + 1) as usize, frame_ms: cell::FRAME_MS, ..base }
    } else {
        base
    }
}

/// Whether `r` is a possible animation step of `c` under `mood` and
/// `dt`: equal to `spec_animate` for some idle-pause draw below the
/// bound.
pub open spec fn spec_animate_possible(c: Cell, r: Cell, mood: Mood, dt: int) -> bool {
    exists|roll: int|
        0 <= roll < cell::PAUSE_MS_BOUND && r == (#[trigger] spec_animate(c, mood, dt, roll))
}

/// What one animation tick does to a world: every cell takes one
/// `spec_animate` step under its derived mood, for some idle-pause
/// draw below the bound; nothing else changes.
pub open spec fn spec_animate_rel(pre: WorldModel, post: WorldModel, dt: int) -> bool {
    &&& post.cells.len() == pre.cells.len()
    &&& forall|i: int|
        0 <= i < pre.cells.len() ==> #[trigger] spec_animate_possible(
            pre.cells[i],
            post.cells[i],
            spec_mood_for(pre.state, pre.info, pre.cells[i]),
            dt,
        )
    &&& post.selection == pre.selection
    &&& post.state == pre.state
    &&& post.info == pre.info
    &&& post.next_id == pre.next_id
    &&& post.terminal_phase == pre.terminal_phase
}

/// An animation step only rewrites the mood, the timers and the sprite
/// index; an index that left the active mood's range self-heals, so
/// the step always lands inside that range (and the sprite sheet).
pub proof fn lemma_animate_frame(c: Cell, mood: Mood, dt: int, pause_roll: int)
    requires
        c.sprite_index < cell::SPRITE_COUNT,
    ensures
        ({
            let r = spec_animate(c, mood, dt, pause_roll);
            &&& r.id == c.id
            &&& r.col == c.col
            &&& r.height == c.height
            &&& r.phase == c.phase
            &&& r.corrupted == c.corrupted
            &&& r.corrupted_neighbors == c.corrupted_neighbors
            &&& r.color_index == c.color_index
            &&& r.mood == mood
            &&& cell::spec_mood_first(mood) <= r.sprite_index <= cell::spec_mood_last(mood)
            &&& r.sprite_index < cell::SPRITE_COUNT
        }),
{
}

/// Ticks a countdown timer by `dt` milliseconds.
fn tick_timer(remaining: u32, dt: u32) -> (r: u32)
    ensures
        r == spec_ticked(remaining as int, dt as int),
{
    if remaining > dt {
        remaining - dt
    } else {
        0
    }
}

/// One animation step of a single cell.
fn animate_cell(c: &mut Cell, mood: Mood, dt: u32, pause_roll: u32)
    requires
        old(c).sprite_index < cell::SPRITE_COUNT,
        pause_roll < cell::PAUSE_MS_BOUND,
    ensures
        *final(c) == spec_animate(*old(c), mood, dt as int, pause_roll as int),
{
    let pause_just = 0 < c.pause_ms && c.pause_ms <= dt;
    let frame_just = 0 < c.frame_ms && c.frame_ms <= dt;
    c.pause_ms = tick_timer(c.pause_ms, dt);
    c.frame_ms = tick_timer(c.frame_ms, dt);
    c.mood = mood;
    let first = cell::mood_first(mood);
    let last = cell::mood_last(mood);
    if !(first <= c.sprite_index && c.sprite_index <= last) {
        c.sprite_index = first;
        c.pause_ms = pause_roll;
    } else if c.sprite_index == first {
        if pause_just {
            c.sprite_index = c.sprite_index + 1;
            c.frame_ms = cell::FRAME_MS;
        }
    } else if c.sprite_index == last {
        c.sprite_index = first;
        c.pause_ms = pause_roll;
    } else if frame_just {
        c.sprite_index = c.sprite_index + 1;
        c.frame_ms = cell::FRAME_MS;
    }
}

impl GameWorld {
    /// One animation tick with `dt` elapsed milliseconds: every cell
    /// takes its derived mood and one sprite step, with a fresh random
    /// idle-pause draw where one is needed. Nothing else changes.
    #[verifier::loop_isolation(false)]
    pub fn animation_tick(&mut self, dt: u32)
        requires
            old(self).wf(),
        ensures
            final(self).wf(),
            spec_animate_rel(old(self).model(), final(self).model(), dt as int),
            final(self).cells@.len() == old(self).cells@.len(),
            forall|i: int|
                0 <= i < old(self).cells@.len() ==> #[trigger] spec_animate_possible(
                    old(self).cells@[i],
                    final(self).cells@[i],
                    spec_mood_for(old(self).state, old(self).info, old(self).cells@[i]),
                    dt as int,
                ),
            final(self).selection == old(self).selection,
            final(self).state == old(self).state,
            final(self).info == old(self).info,
            final(self).next_id == old(self).next_id,
            final(self).terminal_phase == old(self).terminal_phase,
    {
        let ghost cells0 = self.cells@;
        let n = self.cells.len();
        let mut i: usize = 0;
        let ghost mut rolls: Seq<int> = Seq::empty();
        while i < n
            invariant
                n == cells0.len(),
                self.cells@.len() == n,
                i <= n,
                rolls.len() == i as int,
                forall|k: int| i as int <= k < n as int ==> self.cells@[k] == cells0[k],
                forall|k: int|
                    #![trigger rolls[k]]
                    0 <= k < i as int ==> 0 <= rolls[k] < cell::PAUSE_MS_BOUND && self.cells@[k]
                        == spec_animate(
                        cells0[k],
                        spec_mood_for(old(self).state, old(self).info, cells0[k]),
                        dt as int,
                        rolls[k],
                    ),
                self.selection == old(self).selection,
                self.state == old(self).state,
                self.info == old(self).info,
                self.next_id == old(self).next_id,
                self.terminal_phase == old(self).terminal_phase,
            decreases n - i,
        {
            let mood = if matches!(self.state, RoundState::Ending) {
                cell::mood_ending(self.cells[i].corrupted, self.info.current_win_corrupted)
            } else {
                cell::mood_playing(self.cells[i].corrupted, self.cells[i].corrupted_neighbors)
            };
            proof {
                assert(mood == spec_mood_for(old(self).state, old(self).info, cells0[i as int]));
            }
            let pause_roll = rng::rand_below(cell::PAUSE_MS_BOUND);
            let r = vstd::std_specs::vec::vec_index_mut(&mut self.cells, i);
            animate_cell(r, mood, dt, pause_roll);
            proof {
                rolls = rolls.push(pause_roll as int);
            }
            i = i + 1;
        }
        proof {
            assert forall|k: int| 0 <= k < cells0.len() implies #[trigger] spec_animate_possible(
                cells0[k],
                self.cells@[k],
                spec_mood_for(old(self).state, old(self).info, cells0[k]),
                dt as int,
            ) by {
                assert(self.cells@[k] == spec_animate(
                    cells0[k],
                    spec_mood_for(old(self).state, old(self).info, cells0[k]),
                    dt as int,
                    rolls[k],
                ));
            }
        }
        proof {
            let t = self.terminal_phase as int;
            assert forall|k: int| 0 <= k < self.cells@.len() implies {
                &&& (#[trigger] self.cells@[k]).id == cells0[k].id
                &&& self.cells@[k].col == cells0[k].col
                &&& self.cells@[k].height == cells0[k].height
                &&& self.cells@[k].phase == cells0[k].phase
                &&& self.cells@[k].corrupted == cells0[k].corrupted
                &&& self.cells@[k].color_index == cells0[k].color_index
                &&& self.cells@[k].sprite_index < cell::SPRITE_COUNT
            } by {
                assert(self.cells@[k] == spec_animate(
                    cells0[k],
                    spec_mood_for(old(self).state, old(self).info, cells0[k]),
                    dt as int,
                    rolls[k],
                ));
                lemma_animate_frame(
                    cells0[k],
                    spec_mood_for(old(self).state, old(self).info, cells0[k]),
                    dt as int,
                    rolls[k],
                );
            }
            assert forall|k: int| 0 <= k < self.cells@.len() implies (#[trigger] self.cells@[k]).wf(
                t,
            ) by {
                assert(cells0[k].wf(t));
            }
            assert forall|p: int, q: int|
                #![trigger self.cells@[p], self.cells@[q]]
                0 <= p < q < self.cells@.len() && self.cells@[p].col == self.cells@[q].col
                implies self.cells@[p].height + crate::grid::STEPS_PER_ROW
                <= self.cells@[q].height by {
                assert(cells0[p].height + crate::grid::STEPS_PER_ROW <= cells0[q].height);
            }
            assert forall|p: int, q: int|
                #![trigger self.cells@[p].id, self.cells@[q].id]
                0 <= p < q < self.cells@.len() implies self.cells@[p].id != self.cells@[q].id by {
                assert(cells0[p].id != cells0[q].id);
            }
            if self.state == RoundState::Playing {
                assert forall|k: int| 0 <= k < self.cells@.len() implies (
                #[trigger] self.cells@[k]).phase < t by {
                    assert(cells0[k].phase < t);
                }
            }
            match self.selection {
                Some(sel) => {
                    crate::world::lemma_selection_still_wf(cells0, self.cells@, sel);
                },
                None => {},
            }
        }
    }
}

} // verus!
