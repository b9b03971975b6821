//! The gravity / compaction engine: each tick, the first cell in scan
//! order that is free to fall drops by one fall step; at most one cell
//! moves per tick.

use vstd::prelude::*;
use crate::cell::Cell;
use crate::grid;
use crate::world::GameWorld;

verus! {

/// A cell cannot fall when it rests on the floor row or another cell of
/// its column stands exactly one lattice row below it.
pub open spec fn spec_blocked(cells: Seq<Cell>, i: int) -> bool {
    ||| cells[i].height == 0
    ||| exists|j: int|
        0 <= j < cells.len() && j != i && cells[j].col == cells[i].col && cells[i].height
            == cells[j].height + grid::STEPS_PER_ROW
}

pub open spec fn spec_droppable(cells: Seq<Cell>, i: int) -> bool {
    !spec_blocked(cells, i)
}

/// Index of the first droppable cell at or after `n` in scan order.
pub open spec fn first_droppable_from(cells: Seq<Cell>, n: int) -> Option<int>
    decreases cells.len() - n,
{
    if n < 0 || n >= cells.len() {
        None
    } else if spec_droppable(cells, n) {
        Some(n)
    } else {
        first_droppable_from(cells, n + 1)
    }
}

/// Index of the first droppable cell in scan order, if any.
pub open spec fn spec_first_droppable(cells: Seq<Cell>) -> Option<int> {
    first_droppable_from(cells, 0)
}

/// `first_droppable_from` returns exactly the least droppable index in
/// `n..`, when one exists.
pub proof fn lemma_first_droppable_char(cells: Seq<Cell>, n: int)
    requires
        0 <= n <= cells.len(),
    ensures
        match first_droppable_from(cells, n) {
            Some(i) => n <= i < cells.len() && spec_droppable(cells, i) && forall|k: int|
                n <= k < i ==> !spec_droppable(cells, k),
            None => forall|k: int| n <= k < cells.len() ==> !spec_droppable(cells, k),
        },
    decreases cells.len() - n,
{
    if n < cells.len() && !spec_droppable(cells, n) {
        lemma_first_droppable_char(cells, n + 1);
    }
}

/// `c` one fall step lower, all else equal.
pub open spec fn spec_fallen(c: Cell) -> Cell {
    Cell { height: (c.height - 1) as u8, ..c }
}

/// What one gravity tick does to the arena: the first droppable cell,
/// if any, falls by one step; nothing else changes.
pub open spec fn spec_gravity_step(cells: Seq<Cell>) -> Seq<Cell> {
    match spec_first_droppable(cells) {
        None => cells,
        Some(i) => cells.update(i, spec_fallen(cells[i])),
    }
}

/// Gravity monotonicity: a tick never raises a cell, and it changes the
/// height of exactly one cell (by one fall step) or of none; every
/// other field of every cell is untouched.
pub proof fn lemma_gravity_monotone(cells: Seq<Cell>)
    ensures
        spec_gravity_step(cells).len() == cells.len(),
        forall|k: int|
            0 <= k < cells.len() ==> (#[trigger] spec_gravity_step(cells)[k]).height
                <= cells[k].height,
        forall|k: int|
            0 <= k < cells.len() ==> ((#[trigger] spec_gravity_step(cells)[k]) == cells[k]
                || spec_gravity_step(cells)[k] == spec_fallen(cells[k])),
        (spec_gravity_step(cells) == cells || (exists|i: int|
            0 <= i < cells.len() && spec_droppable(cells, i) && (#[trigger] spec_gravity_step(
                cells,
            )[i]) == spec_fallen(cells[i]) && (forall|k: int|
                0 <= k < cells.len() && k != i ==> (#[trigger] spec_gravity_step(cells)[k])
                    == cells[k]))),
{
    lemma_first_droppable_char(cells, 0);
    match spec_first_droppable(cells) {
        None => {},
        Some(i) => {
            assert(cells[i].height > 0);
            assert(spec_gravity_step(cells)[i].height == cells[i].height - 1);
        },
    }
}

/// Whether the `i`-th cell is blocked from falling.
fn blocked(cells: &Vec<Cell>, i: usize) -> (r: bool)
    requires
        i < cells.len(),
    ensures
        r == spec_blocked(cells@, i as int),
{
    if cells[i].height == 0 {
        return true;
    }
    let n = cells.len();
    let mut j: usize = 0;
    while j < n
        invariant
            n == cells.len(),
            i < n,
            forall|k: int|
                0 <= k < j as int ==> !(k != i as int && cells@[k].col == cells@[i as int].col
                    && cells@[i as int].height == cells@[k].height + grid::STEPS_PER_ROW),
        decreases n - j,
    {
        if j != i && cells[j].col == cells[i].col && cells[i].height as u32 == cells[j].height
            as u32 + grid::STEPS_PER_ROW as u32 {
            return true;
        }
        j = j + 1;
    }
    false
}

impl GameWorld {
    /// One gravity tick: the first droppable cell in scan order falls
    /// one step. Positions aside, nothing changes: no cell is added or
    /// removed, and phases, traits, moods and timers stay put.
    #[verifier::loop_isolation(false)]
    pub fn gravity_tick(&mut self)
        requires
            old(self).wf(),
        ensures
            final(self).wf(),
            final(self).cells@ == spec_gravity_step(old(self).cells@),
            final(self).selection == old(self).selection,
            final(self).state == old(self).state,
            final(self).info == old(self).info,
            final(self).next_id == old(self).next_id,
            final(self).terminal_phase == old(self).terminal_phase,
    {
        let n = self.cells.len();
        let mut i: usize = 0;
        let ghost cells0 = self.cells@;
        proof {
            lemma_first_droppable_char(cells0, 0);
        }
        while i < n
            invariant
                n == self.cells.len(),
                self.cells@ == cells0,
                self.selection == old(self).selection,
                self.state == old(self).state,
                self.info == old(self).info,
                self.next_id == old(self).next_id,
                self.terminal_phase == old(self).terminal_phase,
                forall|k: int| 0 <= k < i as int ==> !spec_droppable(cells0, k),
            decreases n - i,
        {
            if !blocked(&self.cells, i) {
                // This is the first droppable cell in scan order.
                proof {
                    lemma_first_droppable_char(cells0, 0);
                    assert(spec_first_droppable(cells0) == Some(i as int)) by {
                        match spec_first_droppable(cells0) {
                            None => {
                                assert(spec_droppable(cells0, i as int));
                            },
                            Some(f) => {
                                if f < i as int {
                                    assert(!spec_droppable(cells0, f));
                                } else if f > i as int {
                                    assert(!spec_droppable(cells0, i as int));
                                }
                            },
                        }
                    }
                }
                let c = self.cells[i];
                let dropped = Cell { height: c.height - 1, ..c };
                proof {
                    assert(dropped == spec_fallen(c));
                }
                let r = vstd::std_specs::vec::vec_index_mut(&mut self.cells, i);
                *r = dropped;
                proof {
                    assert forall|p: int, q: int|
                        #![trigger self.cells@[p], self.cells@[q]]
                        0 <= p < q < self.cells@.len() && self.cells@[p].col == self.cells@[q].col
                        implies self.cells@[p].height + grid::STEPS_PER_ROW
                        <= self.cells@[q].height by {
                        assert(cells0[p].col == cells0[q].col);
                        assert(cells0[p].height + grid::STEPS_PER_ROW <= cells0[q].height);
                        if q == i as int {
                            // The falling cell keeps a full row above `p`:
                            // it is not blocked, so it is not exactly one
                            // row above `p`.
                            assert(cells0[i as int].height != cells0[p].height
                                + grid::STEPS_PER_ROW);
                        }
                    }
                    match self.selection {
                        Some(sel) => {
                            crate::world::lemma_selection_still_wf(cells0, self.cells@, sel);
                        },
                        None => {},
                    }
                }
                return ;
            }
            i = i + 1;
        }
        proof {
            assert(spec_first_droppable(cells0) is None) by {
                lemma_first_droppable_char(cells0, 0);
                match spec_first_droppable(cells0) {
                    Some(f) => {
                        assert(!spec_droppable(cells0, f));
                    },
                    None => {},
                }
            }
            assert(self.cells@ =~= spec_gravity_step(cells0));
        }
    }
}

} // verus!
