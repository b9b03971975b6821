//! The neighbour counter: every tick, each cell learns how many
//! corrupted cells stand within one lattice pitch of it.

use vstd::prelude::*;
use crate::cell::{Cell, spec_cells_adjacent};
use crate::grid;
use crate::world::GameWorld;

verus! {

/// How many of the first `n` cells, the `i`-th excluded, are corrupted
/// and adjacent to the `i`-th.
pub open spec fn count_corrupted_near(cells: Seq<Cell>, i: int, n: int) -> int
    decreases n,
{
    if n <= 0 {
        0
    } else {
        count_corrupted_near(cells, i, n - 1) + if n - 1 != i && cells[n - 1].corrupted
            && spec_cells_adjacent(cells[i], cells[n - 1]) {
            1int
        } else {
            0int
        }
    }
}

/// The corrupted-neighbour count of the `i`-th cell.
pub open spec fn spec_neighbor_count(cells: Seq<Cell>, i: int) -> int {
    count_corrupted_near(cells, i, cells.len() as int)
}

/// The `i`-th cell rewritten with its freshly counted neighbours.
pub open spec fn spec_recounted(cells: Seq<Cell>, i: int) -> Cell {
    Cell { corrupted_neighbors: spec_neighbor_count(cells, i) as usize, ..cells[i] }
}

/// What one neighbour-count tick does to the arena: every cell
/// rewritten with its freshly counted neighbours.
pub open spec fn spec_recount_step(cells: Seq<Cell>) -> Seq<Cell> {
    Seq::new(cells.len(), |i: int| spec_recounted(cells, i))
}

/// Counts the corrupted cells adjacent to the `i`-th, the cell itself
/// excluded.
fn count_for(cells: &Vec<Cell>, i: usize) -> (r: usize)
    requires
        i < cells@.len(),
        forall|k: int|
            0 <= k < cells@.len() ==> (#[trigger] cells@[k]).col < grid::COLS && cells@[k].height
                <= grid::SPAWN_HEIGHT,
    ensures
        r == spec_neighbor_count(cells@, i as int),
{
    let n = cells.len();
    let mut count: usize = 0;
    let mut j: usize = 0;
    while j < n
        invariant
            n == cells@.len(),
            i < n,
            j <= n,
            forall|k: int|
                0 <= k < cells@.len() ==> (#[trigger] cells@[k]).col < grid::COLS
                    && cells@[k].height <= grid::SPAWN_HEIGHT,
            count == count_corrupted_near(cells@, i as int, j as int),
            count <= j,
        decreases n - j,
    {
        if j != i && cells[j].corrupted && grid::adjacent(
            cells[i].col,
            cells[i].height,
            cells[j].col,
            cells[j].height,
        ) {
            count = count + 1;
        }
        j = j + 1;
    }
    count
}

impl GameWorld {
    /// One neighbour-count tick: every cell's `corrupted_neighbors` is
    /// recomputed from the current positions and traits; nothing else
    /// changes.
    #[verifier::loop_isolation(false)]
    pub fn neighbor_tick(&mut self)
        requires
            old(self).wf(),
        ensures
            final(self).wf(),
            final(self).cells@ == spec_recount_step(old(self).cells@),
            final(self).cells@.len() == old(self).cells@.len(),
            forall|i: int|
                0 <= i < old(self).cells@.len() ==> final(self).cells@[i] == spec_recounted(
                    old(self).cells@,
                    i,
                ),
            final(self).selection == old(self).selection,
            final(self).state == old(self).state,
            final(self).info == old(self).info,
            final(self).next_id == old(self).next_id,
            final(self).terminal_phase == old(self).terminal_phase,
    {
        let ghost cells0 = self.cells@;
        let n = self.cells.len();
        let mut out: Vec<Cell> = Vec::new();
        let mut i: usize = 0;
        while i < n
            invariant
                n == self.cells@.len(),
                self.cells@ == cells0,
                i <= n,
                out@.len() == i as int,
                forall|k: int| 0 <= k < i as int ==> out@[k] == spec_recounted(cells0, k),
            decreases n - i,
        {
            let count = count_for(&self.cells, i);
            let c = self.cells[i];
            out.push(Cell { corrupted_neighbors: count, ..c });
            i = i + 1;
        }
        self.cells = out;
        proof {
            assert(self.cells@ =~= spec_recount_step(cells0));
            let t = self.terminal_phase as int;
            assert forall|k: int| 0 <= k < self.cells@.len() implies (#[trigger] self.cells@[k]).wf(
                t,
            ) by {
                assert(self.cells@[k] == spec_recounted(cells0, k));
                assert(cells0[k].wf(t));
            }
            assert forall|p: int, q: int|
                #![trigger self.cells@[p], self.cells@[q]]
                0 <= p < q < self.cells@.len() && self.cells@[p].col == self.cells@[q].col
                implies self.cells@[p].height + grid::STEPS_PER_ROW <= self.cells@[q].height by {
                assert(self.cells@[p] == spec_recounted(cells0, p));
                assert(self.cells@[q] == spec_recounted(cells0, q));
                assert(cells0[p].height + grid::STEPS_PER_ROW <= cells0[q].height);
            }
            assert forall|p: int, q: int|
                #![trigger self.cells@[p].id, self.cells@[q].id]
                0 <= p < q < self.cells@.len() implies self.cells@[p].id != self.cells@[q].id by {
                assert(self.cells@[p] == spec_recounted(cells0, p));
                assert(self.cells@[q] == spec_recounted(cells0, q));
                assert(cells0[p].id != cells0[q].id);
            }
            assert forall|k: int| 0 <= k < self.cells@.len() implies (#[trigger] self.cells@[k]).id
                < self.next_id by {
                assert(self.cells@[k] == spec_recounted(cells0, k));
            }
            if self.state == crate::world::RoundState::Playing {
                assert forall|k: int| 0 <= k < self.cells@.len() implies (
                #[trigger] self.cells@[k]).phase < t by {
                    assert(self.cells@[k] == spec_recounted(cells0, k));
                }
            }
            match self.selection {
                Some(sel) => {
                    crate::world::lemma_selection_still_wf(cells0, self.cells@, sel);
                },
                None => {},
            }
        }
    }
}

} // verus!
