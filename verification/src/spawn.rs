//! The refill rule: every tick, each column with no cell at or above the
//! refill threshold receives one fresh cell at spawn height, corrupted
//! with probability `SPAWN_NUM / SPAWN_DEN`.

use vstd::prelude::*;
use crate::cell;
use crate::cell::{Cell, Mood};
use crate::corruption;
use crate::grid;
use crate::rng;
use crate::world::{GameWorld, WorldModel};

verus! {

/// A column refills only while every cell in it sits strictly below the
/// refill threshold.
pub open spec fn spec_column_open(cells: Seq<Cell>, k: int) -> bool {
    forall|i: int|
        0 <= i < cells.len() && (#[trigger] cells[i]).col == k ==> cells[i].height
            < grid::SPAWN_CHECK_HEIGHT
}

/// What a cell freshly spawned into column `k` looks like; its
/// corruption trait is the random draw's outcome.
pub open spec fn spec_spawned_cell(c: Cell, k: int) -> bool {
    &&& c.col == k
    &&& c.height == grid::SPAWN_HEIGHT
    &&& c.phase == 0
    &&& c.corrupted_neighbors == 0
    &&& c.mood == (if c.corrupted {
        Mood::CorruptedCalm
    } else {
        Mood::NormalCalm
    })
    &&& c.pause_ms < cell::PAUSE_MS_BOUND
    &&& c.frame_ms == cell::FRAME_MS
    &&& c.sprite_index == (if c.corrupted {
        1int
    } else {
        0int
    })
    &&& c.color_index == 0
}

/// What one refill tick does to a world: the old cells stand unchanged
/// as a prefix; a column gains exactly one appended cell — a fresh
/// spawn with the next identities in order — iff it was open; nothing
/// else changes.
pub open spec fn spec_spawn_rel(pre: WorldModel, post: WorldModel) -> bool {
    &&& pre.cells.len() <= post.cells.len() <= pre.cells.len() + grid::COLS as int
    &&& forall|i: int| 0 <= i < pre.cells.len() ==> post.cells[i] == pre.cells[i]
    &&& forall|k: int|
        0 <= k < grid::COLS as int ==> (spec_column_open(pre.cells, k) <==> (exists|i: int|
            pre.cells.len() <= i < post.cells.len() && (#[trigger] post.cells[i]).col == k))
    &&& forall|i: int|
        pre.cells.len() <= i < post.cells.len() ==> {
            let c = #[trigger] post.cells[i];
            spec_spawned_cell(c, c.col as int) && spec_column_open(pre.cells, c.col as int)
                && pre.next_id <= c.id < post.next_id
        }
    &&& post.next_id == pre.next_id + post.cells.len() - pre.cells.len()
    &&& post.selection == pre.selection
    &&& post.state == pre.state
    &&& post.info == pre.info
    &&& post.terminal_phase == pre.terminal_phase
}

/// Whether every cell among the first `n` that stands in column `k`
/// sits strictly below the refill threshold.
fn column_open_prefix(cells: &Vec<Cell>, n: usize, k: u8) -> (r: bool)
    requires
        n <= cells.len(),
    ensures
        r == (forall|i: int|
            0 <= i < n as int && (#[trigger] cells@[i]).col == k ==> cells@[i].height
                < grid::SPAWN_CHECK_HEIGHT),
{
    let mut i: usize = 0;
    while i < n
        invariant
            n <= cells.len(),
            i <= n,
            forall|j: int|
                0 <= j < i as int && (#[trigger] cells@[j]).col == k ==> cells@[j].height
                    < grid::SPAWN_CHECK_HEIGHT,
        decreases n - i,
    {
        if cells[i].col == k && cells[i].height >= grid::SPAWN_CHECK_HEIGHT {
            return false;
        }
        i = i + 1;
    }
    true
}

impl GameWorld {
    /// One refill tick: each open column — judged against the arena as
    /// the tick found it — gains one fresh cell at spawn height, with a
    /// freshly drawn corruption trait and idle pause. Existing cells
    /// are untouched; each spawned cell takes the next fresh identity.
    #[verifier::loop_isolation(false)]
    pub fn spawn_tick(&mut self)
        requires
            old(self).wf(),
            old(self).next_id + grid::COLS as int <= u64::MAX,
        ensures
            final(self).wf(),
            spec_spawn_rel(old(self).model(), final(self).model()),
    {
        let n = self.cells.len();
        let ghost cells0 = self.cells@;
        let mut k: u8 = 0;
        while k < grid::COLS
            invariant
                k <= grid::COLS,
                n == cells0.len(),
                n <= self.cells@.len(),
                self.cells@.len() <= n + k as int,
                forall|i: int| 0 <= i < n as int ==> self.cells@[i] == cells0[i],
                forall|i: int|
                    n as int <= i < self.cells@.len() ==> {
                        let c = #[trigger] self.cells@[i];
                        spec_spawned_cell(c, c.col as int) && c.col < k && spec_column_open(
                            cells0,
                            c.col as int,
                        ) && c.id == old(self).next_id + i - n as int
                    },
                forall|i1: int, i2: int|
                    #![trigger self.cells@[i1], self.cells@[i2]]
                    n as int <= i1 < i2 < self.cells@.len() ==> self.cells@[i1].col
                        < self.cells@[i2].col,
                forall|kk: int|
                    0 <= kk < k as int ==> (spec_column_open(cells0, kk) <==> (exists|i: int|
                        n as int <= i < self.cells@.len() && (#[trigger] self.cells@[i]).col
                            == kk)),
                self.next_id == old(self).next_id + self.cells@.len() - n as int,
                self.next_id <= old(self).next_id + k as int,
                self.selection == old(self).selection,
                self.state == old(self).state,
                self.info == old(self).info,
                self.terminal_phase == old(self).terminal_phase,
            decreases grid::COLS - k,
        {
            let ghost pre = self.cells@;
            let open = column_open_prefix(&self.cells, n, k);
            proof {
                if open {
                    assert forall|i: int|
                        0 <= i < cells0.len() && (#[trigger] cells0[i]).col == k implies cells0[i].height
                        < grid::SPAWN_CHECK_HEIGHT by {
                        assert(self.cells@[i] == cells0[i]);
                    }
                    assert(spec_column_open(cells0, k as int));
                } else {
                    let wi = choose|i: int|
                        0 <= i < n as int && (#[trigger] self.cells@[i]).col == k
                            && self.cells@[i].height >= grid::SPAWN_CHECK_HEIGHT;
                    assert(cells0[wi].col == k && cells0[wi].height >= grid::SPAWN_CHECK_HEIGHT);
                    assert(!spec_column_open(cells0, k as int));
                }
            }
            if open {
                let corrupted = rng::rand_below(corruption::SPAWN_DEN) < corruption::SPAWN_NUM;
                let pause_roll = rng::rand_below(cell::PAUSE_MS_BOUND);
                let c = cell::new_cell(self.next_id, k, grid::SPAWN_HEIGHT, corrupted, pause_roll);
                self.cells.push(c);
                self.next_id = self.next_id + 1;
                proof {
                    let last = self.cells@.len() - 1;
                    assert(self.cells@[last].col == k as int);
                    assert(spec_spawned_cell(self.cells@[last], k as int));
                }
            }
            proof {
                assert forall|kk: int| 0 <= kk < k as int + 1 implies (spec_column_open(
                    cells0,
                    kk,
                ) <==> (exists|i: int|
                    n as int <= i < self.cells@.len() && (#[trigger] self.cells@[i]).col
                        == kk)) by {
                    if kk < k as int {
                        if spec_column_open(cells0, kk) {
                            let wi = choose|i: int|
                                n as int <= i < pre.len() && (#[trigger] pre[i]).col == kk;
                            assert(self.cells@[wi].col == kk);
                        } else {
                            assert forall|i: int|
                                n as int <= i < self.cells@.len() implies (
                            #[trigger] self.cells@[i]).col != kk by {
                                if i < pre.len() {
                                    assert(pre[i].col != kk);
                                }
                            }
                        }
                    } else {
                        if open {
                            let last = self.cells@.len() - 1;
                            assert(self.cells@[last].col == kk);
                        } else {
                            assert forall|i: int|
                                n as int <= i < self.cells@.len() implies (
                            #[trigger] self.cells@[i]).col != kk by {
                                assert(self.cells@[i].col < k);
                            }
                        }
                    }
                }
            }
            k = k + 1;
        }
        proof {
            let t = self.terminal_phase as int;
            assert forall|i: int| 0 <= i < self.cells@.len() implies (#[trigger] self.cells@[i]).wf(
                t,
            ) by {
                if i < n as int {
                    assert(self.cells@[i] == cells0[i]);
                } else {
                    assert(spec_spawned_cell(self.cells@[i], self.cells@[i].col as int));
                }
            }
            assert forall|p: int, q: int|
                #![trigger self.cells@[p].id, self.cells@[q].id]
                0 <= p < q < self.cells@.len() implies self.cells@[p].id != self.cells@[q].id by {
                if q < n as int {
                    assert(self.cells@[p] == cells0[p] && self.cells@[q] == cells0[q]);
                } else if p < n as int {
                    assert(self.cells@[p] == cells0[p]);
                    assert(cells0[p].id < old(self).next_id);
                    assert(self.cells@[q].id == old(self).next_id + q - n as int);
                } else {
                    assert(self.cells@[p].id == old(self).next_id + p - n as int);
                    assert(self.cells@[q].id == old(self).next_id + q - n as int);
                }
            }
            assert forall|i: int| 0 <= i < self.cells@.len() implies (#[trigger] self.cells@[i]).id
                < self.next_id by {
                if i < n as int {
                    assert(self.cells@[i] == cells0[i]);
                }
            }
            assert forall|p: int, q: int|
                #![trigger self.cells@[p], self.cells@[q]]
                0 <= p < q < self.cells@.len() && self.cells@[p].col == self.cells@[q].col
                implies self.cells@[p].height + grid::STEPS_PER_ROW <= self.cells@[q].height by {
                if q < n as int {
                    assert(self.cells@[p] == cells0[p] && self.cells@[q] == cells0[q]);
                    assert(cells0[p].height + grid::STEPS_PER_ROW <= cells0[q].height);
                } else if p < n as int {
                    // `p` sat below the refill threshold, else `q`'s
                    // column would not have been open.
                    assert(spec_column_open(cells0, self.cells@[q].col as int));
                    assert(self.cells@[p] == cells0[p]);
                    assert(cells0[p].height < grid::SPAWN_CHECK_HEIGHT);
                    assert(self.cells@[q].height == grid::SPAWN_HEIGHT);
                } else {
                    assert(self.cells@[p].col < self.cells@[q].col);
                }
            }
            if self.state == crate::world::RoundState::Playing {
                assert forall|i: int| 0 <= i < self.cells@.len() implies (
                #[trigger] self.cells@[i]).phase < t by {
                    if i < n as int {
                        assert(self.cells@[i] == cells0[i]);
                    } else {
                        assert(spec_spawned_cell(self.cells@[i], self.cells@[i].col as int));
                    }
                }
            }
            match self.selection {
                Some(sel) => {
                    crate::world::lemma_selection_still_wf(cells0, self.cells@, sel);
                },
                None => {},
            }
        }
    }
}

} // verus!
