//! One whole frame: the systems run in the fixed order of the
//! single-threaded schedule — click input, gravity, refill, neighbour
//! count (all gated on the round playing), then animation — drawing
//! their randomness as they go.

use vstd::prelude::*;
use crate::animate;
use crate::cell::Cell;
use crate::corruption;
use crate::gravity;
use crate::grid;
use crate::neighbors;
use crate::rng;
use crate::select;
use crate::select::spec_phase_traceable;
use crate::spawn;
use crate::world::{GameWorld, RoundState, WorldModel};

verus! {

/// The input stage: while the round is playing, a click moves the
/// world by `spec_click` under some propagation draw below the bound;
/// no click, or a round already ending, moves nothing.
pub open spec fn spec_input_step(
    pre: WorldModel,
    post: WorldModel,
    click: Option<(int, int)>,
) -> bool {
    if pre.state == RoundState::Playing {
        match click {
            Some((cx, cy)) => exists|roll: int|
                0 <= roll < corruption::PROPAGATE_DEN && post == #[trigger] select::spec_click(
                    pre,
                    cx,
                    cy,
                    roll,
                ),
            None => post == pre,
        }
    } else {
        post == pre
    }
}

/// The gravity stage: one `spec_gravity_step` on the arena while the
/// frame began playing, else nothing.
pub open spec fn spec_gravity_gated(m: WorldModel, playing: bool) -> WorldModel {
    if playing {
        WorldModel { cells: gravity::spec_gravity_step(m.cells), ..m }
    } else {
        m
    }
}

/// The refill stage: the `spec_spawn_rel` characterization while the
/// frame began playing, else nothing.
pub open spec fn spec_refill_step(pre: WorldModel, post: WorldModel, playing: bool) -> bool {
    if playing {
        spawn::spec_spawn_rel(pre, post)
    } else {
        post == pre
    }
}

/// The neighbour-count stage: one `spec_recount_step` on the arena
/// while the frame began playing, else nothing.
pub open spec fn spec_recount_gated(m: WorldModel, playing: bool) -> WorldModel {
    if playing {
        WorldModel { cells: neighbors::spec_recount_step(m.cells), ..m }
    } else {
        m
    }
}

/// The frame's tail after the input stage: gravity, then refill, then
/// neighbour counting (each gated on `playing`, the round state when
/// the frame began), then the animation step — chained through the
/// intermediate world `m3` that stands after the refill.
pub open spec fn spec_frame_after_input(
    m1: WorldModel,
    post: WorldModel,
    playing: bool,
    dt: int,
) -> bool {
    exists|m3: WorldModel|
        #![trigger spec_refill_step(spec_gravity_gated(m1, playing), m3, playing)]
        spec_refill_step(spec_gravity_gated(m1, playing), m3, playing)
            && animate::spec_animate_rel(spec_recount_gated(m3, playing), post, dt)
}

/// One whole frame: the input stage under some propagation draw, then
/// the gated gravity, refill and neighbour-count stages, then the
/// animation step — the fixed order of the schedule.
pub open spec fn spec_frame_rel(
    m0: WorldModel,
    post: WorldModel,
    click: Option<(int, int)>,
    dt: int,
) -> bool {
    exists|m1: WorldModel|
        #![trigger spec_input_step(m0, m1, click)]
        spec_input_step(m0, m1, click) && spec_frame_after_input(
            m1,
            post,
            m0.state == RoundState::Playing,
            dt,
        )
}

/// Traceability survives any step that keeps identity and phase.
proof fn lemma_trace_through(pre: Seq<Cell>, mid: Cell, fin: Cell)
    requires
        spec_phase_traceable(pre, mid),
        fin.id == mid.id,
        fin.phase == mid.phase,
    ensures
        spec_phase_traceable(pre, fin),
{
    let q = choose|q: int|
        0 <= q < pre.len() && (#[trigger] pre[q]).id == mid.id && pre[q].phase <= mid.phase <= pre[
            q
        ].phase + 1;
    assert(pre[q].id == fin.id && pre[q].phase <= fin.phase <= pre[q].phase + 1);
}

impl GameWorld {
    /// One frame: an optional primary click at world coordinates, then
    /// gravity, refill and neighbour counting — all only while the
    /// round was playing when the frame began — then animation with
    /// `dt` elapsed milliseconds. The world moves exactly by the frame
    /// relation: the click stage under the drawn propagation roll, then
    /// each gated stage's own characterization, in the fixed order.
    /// Every surviving cell keeps its identity with its phase raised by
    /// at most one (by the one merge a click can make); every other
    /// cell is a fresh spawn at phase 0.
    #[verifier::rlimit(60)]
    pub fn game_tick(&mut self, click: Option<(i32, i32)>, dt: u32)
        requires
            old(self).wf(),
            old(self).next_id + grid::COLS as int <= u64::MAX,
            match click {
                Some((cx, cy)) => -100000 <= cx <= 100000 && -100000 <= cy <= 100000,
                None => true,
            },
        ensures
            final(self).wf(),
            final(self).terminal_phase == old(self).terminal_phase,
            spec_frame_rel(
                old(self).model(),
                final(self).model(),
                match click {
                    Some((cx, cy)) => Some((cx as int, cy as int)),
                    None => None,
                },
                dt as int,
            ),
            forall|p: int|
                0 <= p < final(self).cells@.len() ==> #[trigger] spec_phase_traceable(
                    old(self).cells@,
                    final(self).cells@[p],
                ) || final(self).cells@[p].phase == 0,
    {
        let ghost mstart = self.model();
        let ghost cells0 = self.cells@;
        let ghost clickg: Option<(int, int)> = match click {
            Some((cx, cy)) => Some((cx as int, cy as int)),
            None => None,
        };
        let playing = matches!(self.state, RoundState::Playing);
        if playing {
            if let Some((cx, cy)) = click {
                let roll = rng::rand_below(corruption::PROPAGATE_DEN);
                self.handle_primary_click(cx, cy, roll);
                proof {
                    assert(self.model() == select::spec_click(
                        mstart,
                        cx as int,
                        cy as int,
                        roll as int,
                    ));
                    assert(spec_input_step(mstart, self.model(), clickg));
                    select::lemma_click_phase_monotone(mstart, cx as int, cy as int, roll as int);
                    assert forall|p: int|
                        0 <= p < self.cells@.len() implies #[trigger] spec_phase_traceable(
                        cells0,
                        self.cells@[p],
                    ) by {
                        assert(spec_phase_traceable(
                            mstart.cells,
                            select::spec_click(mstart, cx as int, cy as int, roll as int).cells[p],
                        ));
                    }
                }
            }
        }
        let ghost m1 = self.model();
        proof {
            assert(spec_input_step(mstart, m1, clickg));
            assert forall|p: int| 0 <= p < self.cells@.len() implies #[trigger] spec_phase_traceable(
                cells0,
                self.cells@[p],
            ) by {
                if self.cells@ == cells0 {
                    assert(cells0[p].id == self.cells@[p].id && cells0[p].phase
                        <= self.cells@[p].phase <= cells0[p].phase + 1);
                }
            }
        }
        let ghost cells1 = self.cells@;
        if playing {
            self.gravity_tick();
            proof {
                crate::gravity::lemma_gravity_monotone(cells1);
                assert forall|p: int|
                    0 <= p < self.cells@.len() implies #[trigger] spec_phase_traceable(
                    cells0,
                    self.cells@[p],
                ) by {
                    assert(self.cells@[p].id == cells1[p].id && self.cells@[p].phase
                        == cells1[p].phase);
                    lemma_trace_through(cells0, cells1[p], self.cells@[p]);
                }
            }
        }
        let ghost m2 = self.model();
        proof {
            assert(m2 =~= spec_gravity_gated(m1, playing));
        }
        let ghost cells2 = self.cells@;
        if playing {
            self.spawn_tick();
            proof {
                assert forall|p: int|
                    0 <= p < self.cells@.len() implies (#[trigger] spec_phase_traceable(
                    cells0,
                    self.cells@[p],
                ) || self.cells@[p].phase == 0) by {
                    if p < cells2.len() {
                        assert(self.cells@[p] == cells2[p]);
                    } else {
                        assert(crate::spawn::spec_spawned_cell(
                            self.cells@[p],
                            self.cells@[p].col as int,
                        ));
                    }
                }
            }
        }
        let ghost m3 = self.model();
        proof {
            assert(spec_refill_step(m2, m3, playing));
        }
        let ghost cells3 = self.cells@;
        if playing {
            self.neighbor_tick();
            proof {
                assert forall|p: int|
                    0 <= p < self.cells@.len() implies (#[trigger] spec_phase_traceable(
                    cells0,
                    self.cells@[p],
                ) || self.cells@[p].phase == 0) by {
                    assert(self.cells@[p] == crate::neighbors::spec_recounted(cells3, p));
                    if cells3[p].phase != 0 {
                        assert(spec_phase_traceable(cells0, cells3[p]));
                        lemma_trace_through(cells0, cells3[p], self.cells@[p]);
                    }
                }
            }
        }
        let ghost m4 = self.model();
        proof {
            assert(m4 =~= spec_recount_gated(m3, playing));
        }
        let ghost cells4 = self.cells@;
        let ghost state4 = self.state;
        let ghost info4 = self.info;
        self.animation_tick(dt);
        proof {
            assert(animate::spec_animate_rel(m4, self.model(), dt as int));
            assert(spec_refill_step(spec_gravity_gated(m1, playing), m3, playing));
            assert(animate::spec_animate_rel(
                spec_recount_gated(m3, playing),
                self.model(),
                dt as int,
            ));
            assert(spec_frame_after_input(m1, self.model(), playing, dt as int));
            assert(playing == (mstart.state == RoundState::Playing));
            assert(spec_frame_rel(mstart, self.model(), clickg, dt as int));
            assert forall|p: int| 0 <= p < self.cells@.len() implies (
            #[trigger] spec_phase_traceable(cells0, self.cells@[p]) || self.cells@[p].phase
                == 0) by {
                assert(animate::spec_animate_possible(
                    cells4[p],
                    self.cells@[p],
                    animate::spec_mood_for(state4, info4, cells4[p]),
                    dt as int,
                ));
                let roll = choose|roll: int|
                    0 <= roll < crate::cell::PAUSE_MS_BOUND && self.cells@[p] == (
                    #[trigger] animate::spec_animate(
                        cells4[p],
                        animate::spec_mood_for(state4, info4, cells4[p]),
                        dt as int,
                        roll,
                    ));
                assert(self.cells@[p].id == cells4[p].id && self.cells@[p].phase
                    == cells4[p].phase);
                if cells4[p].phase != 0 {
                    assert(spec_phase_traceable(cells0, cells4[p]));
                    lemma_trace_through(cells0, cells4[p], self.cells@[p]);
                }
            }
        }
    }
}

} // verus!
