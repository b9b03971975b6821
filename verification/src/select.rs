//! The selection / merge state machine: a first click arms a selection
//! on the hit cell; a second click on the same cell cancels; a second
//! click on an adjacent cell of equal phase merges the two, propagating
//! the corruption trait and possibly ending the round.

use vstd::prelude::*;
use crate::cell::{Cell, spec_cell_hit};
use crate::corruption;
use crate::grid;
use crate::world::{
    GameWorld,
    WorldModel,
    RoundState,
    GameInfo,
    Selection,
    selection_wf,
    ids_unique,
    ids_bounded,
    cells_wf,
    column_spaced,
    phases_below,
};

verus! {

/// Index of the first cell at or after `n` in scan order that the click
/// hits.
pub open spec fn find_hit_from(cells: Seq<Cell>, cx: int, cy: int, n: int) -> Option<int>
    decreases cells.len() - n,
{
    if n < 0 || n >= cells.len() {
        None
    } else if spec_cell_hit(cells[n], cx, cy) {
        Some(n)
    } else {
        find_hit_from(cells, cx, cy, n + 1)
    }
}

/// Index of the first cell the click hits, if any.
pub open spec fn spec_find_hit(cells: Seq<Cell>, cx: int, cy: int) -> Option<int> {
    find_hit_from(cells, cx, cy, 0)
}

/// `find_hit_from` returns exactly the least hit index in `n..`, when
/// one exists.
pub proof fn lemma_find_hit_char(cells: Seq<Cell>, cx: int, cy: int, n: int)
    requires
        0 <= n <= cells.len(),
    ensures
        match find_hit_from(cells, cx, cy, n) {
            Some(i) => n <= i < cells.len() && spec_cell_hit(cells[i], cx, cy) && forall|k: int|
                n <= k < i ==> !spec_cell_hit(cells[k], cx, cy),
            None => forall|k: int| n <= k < cells.len() ==> !spec_cell_hit(cells[k], cx, cy),
        },
    decreases cells.len() - n,
{
    if n < cells.len() && !spec_cell_hit(cells[n], cx, cy) {
        lemma_find_hit_char(cells, cx, cy, n + 1);
    }
}

/// In a well-spaced arena a click hits at most one cell: cells of one
/// column stand a full row apart, columns a full pitch apart, and the
/// hit box is smaller than either.
pub proof fn lemma_hit_unique(w: GameWorld, cx: int, cy: int)
    requires
        w.wf(),
    ensures
        forall|i: int, j: int|
            #![trigger w.cells@[i], w.cells@[j]]
            0 <= i < w.cells@.len() && 0 <= j < w.cells@.len() && i != j ==> !(spec_cell_hit(
                w.cells@[i],
                cx,
                cy,
            ) && spec_cell_hit(w.cells@[j], cx, cy)),
{
    assert forall|i: int, j: int|
        #![trigger w.cells@[i], w.cells@[j]]
        0 <= i < w.cells@.len() && 0 <= j < w.cells@.len() && i != j implies !(spec_cell_hit(
        w.cells@[i],
        cx,
        cy,
    ) && spec_cell_hit(w.cells@[j], cx, cy)) by {
        let a = w.cells@[i];
        let b = w.cells@[j];
        if spec_cell_hit(a, cx, cy) && spec_cell_hit(b, cx, cy) {
            assert(grid::spec_world_x(a.col as int) - grid::spec_world_x(b.col as int) == (
            a.col as int - b.col as int) * grid::PITCH) by (nonlinear_arith);
            assert(a.col == b.col);
            assert(grid::spec_world_y(a.height as int) - grid::spec_world_y(b.height as int) == (
            a.height as int - b.height as int) * grid::FALL_STEP) by (nonlinear_arith);
            if i < j {
                assert(a.height + grid::STEPS_PER_ROW <= b.height);
            } else {
                assert(b.height + grid::STEPS_PER_ROW <= a.height);
            }
        }
    }
}

/// The armed selection a click on `c` creates: the cell's identity and
/// a snapshot of its phase, position and trait.
pub open spec fn spec_snapshot(c: Cell) -> Selection {
    Selection { id: c.id, phase: c.phase, col: c.col, height: c.height, corrupted: c.corrupted }
}

/// Whether the armed selection `sel` and the hit cell `c` may merge: a
/// different cell, equal phase, within adjacency of the snapshot
/// position.
pub open spec fn spec_merge_compatible(c: Cell, sel: Selection) -> bool {
    &&& c.id != sel.id
    &&& c.phase == sel.phase
    &&& grid::spec_adjacent(c.col as int, c.height as int, sel.col as int, sel.height as int)
}

/// The surviving cell after a merge: one phase higher, the trait the
/// propagation rule yields, the colour overlay advanced while the new
/// phase stays below the terminal.
pub open spec fn spec_merged_target(c: Cell, sel: Selection, terminal: int, roll: int) -> Cell {
    Cell {
        phase: (c.phase + 1) as u8,
        corrupted: corruption::spec_propagate(c.corrupted, sel.corrupted, roll),
        color_index: if c.phase + 1 < terminal {
            (c.color_index + 1) as u8
        } else {
            c.color_index
        },
        ..c
    }
}

/// Index of the cell carrying identity `id`; unique when identities are.
pub open spec fn spec_index_of_id(cells: Seq<Cell>, id: u64) -> int {
    choose|j: int| 0 <= j < cells.len() && cells[j].id == id
}

/// The round record after a terminal merge: the current outcome is the
/// merged cell's trait, and the matching cumulative flag is set.
pub open spec fn spec_info_after_win(info: GameInfo, corrupted: bool) -> GameInfo {
    GameInfo {
        current_win_corrupted: corrupted,
        won_corrupted: info.won_corrupted || corrupted,
        won_normal: info.won_normal || !corrupted,
        achieved_all_corrupted: info.achieved_all_corrupted,
    }
}

/// A merge of the armed selection into the hit cell at index `i`: the
/// target advances one phase and takes the propagated trait, the
/// selection-source cell leaves the arena, the selection is consumed,
/// and reaching the terminal phase records the outcome and ends the
/// round.
pub open spec fn spec_merge(m: WorldModel, i: int, sel: Selection, roll: int) -> WorldModel {
    let target = spec_merged_target(m.cells[i], sel, m.terminal_phase, roll);
    let j = spec_index_of_id(m.cells, sel.id);
    let reached = target.phase as int == m.terminal_phase;
    WorldModel {
        cells: m.cells.update(i, target).remove(j),
        selection: None,
        state: if reached {
            RoundState::Ending
        } else {
            m.state
        },
        info: if reached {
            spec_info_after_win(m.info, target.corrupted)
        } else {
            m.info
        },
        ..m
    }
}

/// What one primary click at world `(cx, cy)` does, with `roll` the
/// propagation draw: a miss is a no-op; a hit arms, cancels, merges, or
/// — on a phase or adjacency mismatch — leaves everything unchanged.
pub open spec fn spec_click(m: WorldModel, cx: int, cy: int, roll: int) -> WorldModel {
    match spec_find_hit(m.cells, cx, cy) {
        None => m,
        Some(i) => {
            let c = m.cells[i];
            match m.selection {
                None => WorldModel { selection: Some(spec_snapshot(c)), ..m },
                Some(sel) => {
                    if c.id == sel.id {
                        WorldModel { selection: None, ..m }
                    } else if spec_merge_compatible(c, sel) {
                        spec_merge(m, i, sel, roll)
                    } else {
                        m
                    }
                },
            }
        },
    }
}

/// First cell the click hits, in scan order.
fn find_hit(cells: &Vec<Cell>, cx: i32, cy: i32) -> (r: Option<usize>)
    requires
        -100000 <= cx <= 100000,
        -100000 <= cy <= 100000,
        forall|i: int|
            0 <= i < cells@.len() ==> (#[trigger] cells@[i]).col < grid::COLS && cells@[i].height
                <= grid::SPAWN_HEIGHT,
    ensures
        match r {
            Some(i) => i < cells@.len() && spec_find_hit(cells@, cx as int, cy as int) == Some(
                i as int,
            ),
            None => spec_find_hit(cells@, cx as int, cy as int) is None,
        },
{
    proof {
        lemma_find_hit_char(cells@, cx as int, cy as int, 0);
    }
    let n = cells.len();
    let mut i: usize = 0;
    while i < n
        invariant
            n == cells@.len(),
            i <= n,
            -100000 <= cx <= 100000,
            -100000 <= cy <= 100000,
            forall|k: int|
                0 <= k < cells@.len() ==> (#[trigger] cells@[k]).col < grid::COLS
                    && cells@[k].height <= grid::SPAWN_HEIGHT,
            forall|k: int| 0 <= k < i as int ==> !spec_cell_hit(cells@[k], cx as int, cy as int),
        decreases n - i,
    {
        if grid::hits(cx, cy, cells[i].col, cells[i].height) {
            proof {
                lemma_find_hit_char(cells@, cx as int, cy as int, 0);
                match spec_find_hit(cells@, cx as int, cy as int) {
                    None => {
                        assert(spec_cell_hit(cells@[i as int], cx as int, cy as int));
                    },
                    Some(f) => {
                        if f < i as int {
                            assert(!spec_cell_hit(cells@[f], cx as int, cy as int));
                        } else if f > i as int {
                            assert(!spec_cell_hit(cells@[i as int], cx as int, cy as int));
                        }
                    },
                }
            }
            return Some(i);
        }
        i = i + 1;
    }
    proof {
        lemma_find_hit_char(cells@, cx as int, cy as int, 0);
        match spec_find_hit(cells@, cx as int, cy as int) {
            Some(f) => {
                assert(!spec_cell_hit(cells@[f], cx as int, cy as int));
            },
            None => {},
        }
    }
    None
}

/// Index of the live cell carrying `id`.
fn find_by_id(cells: &Vec<Cell>, id: u64) -> (r: usize)
    requires
        exists|j: int| 0 <= j < cells@.len() && (#[trigger] cells@[j]).id == id,
    ensures
        r < cells@.len(),
        cells@[r as int].id == id,
{
    let n = cells.len();
    let mut i: usize = 0;
    while i < n
        invariant
            n == cells@.len(),
            i <= n,
            exists|j: int| 0 <= j < cells@.len() && (#[trigger] cells@[j]).id == id,
            forall|k: int| 0 <= k < i as int ==> (#[trigger] cells@[k]).id != id,
        decreases n - i,
    {
        if cells[i].id == id {
            return i;
        }
        i = i + 1;
    }
    proof {
        let j = choose|j: int| 0 <= j < cells@.len() && (#[trigger] cells@[j]).id == id;
        assert(cells@[j].id != id);
    }
    0
}

impl GameWorld {
    /// One primary click at world `(cx, cy)` while playing; `roll` is
    /// the propagation draw, used only when a merge mixes the traits.
    /// The world moves exactly as `spec_click` says.
    pub fn handle_primary_click(&mut self, cx: i32, cy: i32, roll: u32)
        requires
            old(self).wf(),
            old(self).state == RoundState::Playing,
            roll < corruption::PROPAGATE_DEN,
            -100000 <= cx <= 100000,
            -100000 <= cy <= 100000,
        ensures
            final(self).wf(),
            final(self).model() == spec_click(
                old(self).model(),
                cx as int,
                cy as int,
                roll as int,
            ),
    {
        let ghost m0 = self.model();
        let hit = find_hit(&self.cells, cx, cy);
        match hit {
            None => {
                proof {
                    assert(self.model() =~= spec_click(m0, cx as int, cy as int, roll as int));
                }
            },
            Some(i) => {
                let c = self.cells[i];
                match self.selection {
                    None => {
                        self.selection = Some(
                            Selection {
                                id: c.id,
                                phase: c.phase,
                                col: c.col,
                                height: c.height,
                                corrupted: c.corrupted,
                            },
                        );
                        proof {
                            assert(self.model() =~= spec_click(
                                m0,
                                cx as int,
                                cy as int,
                                roll as int,
                            ));
                        }
                    },
                    Some(sel) => {
                        if c.id == sel.id {
                            self.selection = None;
                            proof {
                                assert(self.model() =~= spec_click(
                                    m0,
                                    cx as int,
                                    cy as int,
                                    roll as int,
                                ));
                            }
                        } else if c.phase == sel.phase && grid::adjacent(
                            c.col,
                            c.height,
                            sel.col,
                            sel.height,
                        ) {
                            self.merge_into(i, sel, roll);
                            proof {
                                assert(self.model() =~= spec_click(
                                    m0,
                                    cx as int,
                                    cy as int,
                                    roll as int,
                                ));
                            }
                        } else {
                            proof {
                                assert(self.model() =~= spec_click(
                                    m0,
                                    cx as int,
                                    cy as int,
                                    roll as int,
                                ));
                            }
                        }
                    },
                }
            },
        }
    }

    /// The merge step proper: advance the hit cell, remove the
    /// selection source, consume the selection, and end the round when
    /// the terminal phase is reached.
    fn merge_into(&mut self, i: usize, sel: Selection, roll: u32)
        requires
            old(self).wf(),
            old(self).state == RoundState::Playing,
            old(self).selection == Some(sel),
            roll < corruption::PROPAGATE_DEN,
            i < old(self).cells@.len(),
            spec_merge_compatible(old(self).cells@[i as int], sel),
        ensures
            final(self).wf(),
            final(self).model() == spec_merge(old(self).model(), i as int, sel, roll as int),
    {
        let ghost m0 = self.model();
        let ghost t = self.terminal_phase as int;
        let c = self.cells[i];
        let new_phase = c.phase + 1;
        let new_corrupted = corruption::propagate_with(c.corrupted, sel.corrupted, roll);
        let new_color = if new_phase < self.terminal_phase {
            c.color_index + 1
        } else {
            c.color_index
        };
        let merged = Cell { phase: new_phase, corrupted: new_corrupted, color_index: new_color, ..c };
        proof {
            assert(merged == spec_merged_target(m0.cells[i as int], sel, t, roll as int));
        }
        let r = vstd::std_specs::vec::vec_index_mut(&mut self.cells, i);
        *r = merged;
        proof {
            // The armed cell is not the target, so the update left its
            // identity in place.
            let w = choose|wi: int|
                0 <= wi < m0.cells.len() && {
                    let cc = #[trigger] m0.cells[wi];
                    cc.id == sel.id && cc.phase == sel.phase && cc.col == sel.col && cc.corrupted
                        == sel.corrupted
                };
            assert(w != i as int);
            assert(self.cells@[w].id == sel.id);
        }
        let j = find_by_id(&self.cells, sel.id);
        proof {
            // Identities are unique, so the found index is the armed
            // cell's, and the model's chosen source index agrees.
            let w = choose|wi: int|
                0 <= wi < m0.cells.len() && {
                    let cc = #[trigger] m0.cells[wi];
                    cc.id == sel.id && cc.phase == sel.phase && cc.col == sel.col && cc.corrupted
                        == sel.corrupted
                };
            assert(self.cells@[w].id == sel.id);
            assert(j as int == w && w != i as int);
            assert(j as int == spec_index_of_id(m0.cells, sel.id)) by {
                let sj = spec_index_of_id(m0.cells, sel.id);
                assert(m0.cells[w].id == sel.id);
                assert(0 <= sj < m0.cells.len() && m0.cells[sj].id == sel.id);
            }
        }
        let ghost updated = self.cells@;
        self.cells.remove(j);
        self.selection = None;
        if new_phase == self.terminal_phase {
            let info = self.info;
            self.info = GameInfo {
                current_win_corrupted: new_corrupted,
                won_corrupted: info.won_corrupted || new_corrupted,
                won_normal: info.won_normal || !new_corrupted,
                achieved_all_corrupted: info.achieved_all_corrupted,
            };
            self.state = RoundState::Ending;
        }
        proof {
            let ghost mm = spec_merge(m0, i as int, sel, roll as int);
            assert(self.cells@ == updated.remove(j as int));
            assert(self.model().cells =~= mm.cells);
            assert(self.model() =~= mm);
            lemma_merge_wf(m0, i as int, sel, roll as int, *self);
        }
    }
}

/// Selection cancel: with nothing armed, clicking a cell and then
/// clicking the same spot again returns the world exactly to where it
/// started — nothing is merged, no phase or trait changes.
pub proof fn lemma_selection_cancel(m: WorldModel, cx: int, cy: int, i: int, r1: int, r2: int)
    requires
        m.selection is None,
        spec_find_hit(m.cells, cx, cy) == Some(i),
        0 <= i < m.cells.len(),
    ensures
        spec_click(spec_click(m, cx, cy, r1), cx, cy, r2) == m,
{
    let m1 = spec_click(m, cx, cy, r1);
    assert(m1.cells == m.cells);
    assert(m1.selection == Some(spec_snapshot(m.cells[i])));
    assert(spec_click(m1, cx, cy, r2) =~= m);
}

/// Merge rejection on mismatch: with a selection armed on the cell at
/// `ia`, a click hitting a different cell `ib` whose phase differs or
/// which stands outside adjacency changes nothing — the cells keep
/// their phases and the selection stays armed.
pub proof fn lemma_merge_mismatch_rejected(
    m: WorldModel,
    ax: int,
    ay: int,
    bx: int,
    by: int,
    ia: int,
    ib: int,
    r1: int,
    r2: int,
)
    requires
        m.selection is None,
        spec_find_hit(m.cells, ax, ay) == Some(ia),
        spec_find_hit(m.cells, bx, by) == Some(ib),
        0 <= ia < m.cells.len(),
        0 <= ib < m.cells.len(),
        m.cells[ib].id != m.cells[ia].id,
        !spec_merge_compatible(m.cells[ib], spec_snapshot(m.cells[ia])),
    ensures
        spec_click(spec_click(m, ax, ay, r1), bx, by, r2) == spec_click(m, ax, ay, r1),
{
    let m1 = spec_click(m, ax, ay, r1);
    assert(m1.cells == m.cells);
    assert(m1.selection == Some(spec_snapshot(m.cells[ia])));
    assert(spec_click(m1, bx, by, r2) =~= m1);
}

/// Terminal transition: a compatible merge that lifts the hit cell to
/// the terminal phase moves the round from Playing to Ending — further
/// clicks are gated on Playing, so exactly once — and records the
/// merged cell's propagated trait as the round outcome; a merge that
/// stays below the terminal leaves the round playing and the record
/// untouched.
pub proof fn lemma_terminal_transition(m: WorldModel, cx: int, cy: int, i: int, sel: Selection, roll: int)
    requires
        m.state == RoundState::Playing,
        m.selection == Some(sel),
        spec_find_hit(m.cells, cx, cy) == Some(i),
        0 <= i < m.cells.len(),
        spec_merge_compatible(m.cells[i], sel),
        m.terminal_phase <= crate::cell::COLOR_COUNT,
        phases_below(m.cells, m.terminal_phase),
    ensures
        m.cells[i].phase + 1 == m.terminal_phase ==> {
            let m2 = spec_click(m, cx, cy, roll);
            let newc = corruption::spec_propagate(m.cells[i].corrupted, sel.corrupted, roll);
            &&& m2.state == RoundState::Ending
            &&& m2.info.current_win_corrupted == newc
            &&& m2.info.won_corrupted == (m.info.won_corrupted || newc)
            &&& m2.info.won_normal == (m.info.won_normal || !newc)
            &&& m2.info.achieved_all_corrupted == m.info.achieved_all_corrupted
        },
        m.cells[i].phase + 1 < m.terminal_phase ==> {
            let m2 = spec_click(m, cx, cy, roll);
            &&& m2.state == RoundState::Playing
            &&& m2.info == m.info
        },
{
    assert(m.cells[i].phase < m.terminal_phase);
    let target = spec_merged_target(m.cells[i], sel, m.terminal_phase, roll);
    assert(target.phase as int == m.cells[i].phase + 1);
}

/// Whether `c` traces back to a cell of `pre` carrying the same
/// identity, with a phase equal or exactly one higher.
pub open spec fn spec_phase_traceable(pre: Seq<Cell>, c: Cell) -> bool {
    exists|q: int|
        0 <= q < pre.len() && (#[trigger] pre[q]).id == c.id && pre[q].phase <= c.phase <= pre[
            q
        ].phase + 1
}

/// Phase monotonicity over a click: every cell that survives keeps its
/// identity and a phase that never decreases — it rises by exactly one
/// on the merged cell and by nothing otherwise.
pub proof fn lemma_click_phase_monotone(m: WorldModel, cx: int, cy: int, roll: int)
    requires
        m.terminal_phase <= crate::cell::COLOR_COUNT,
        cells_wf(m.cells, m.terminal_phase),
        match m.selection {
            Some(sel) => selection_wf(m.cells, sel),
            None => true,
        },
    ensures
        forall|p: int|
            0 <= p < spec_click(m, cx, cy, roll).cells.len() ==> #[trigger] spec_phase_traceable(
                m.cells,
                spec_click(m, cx, cy, roll).cells[p],
            ),
{
    let m2 = spec_click(m, cx, cy, roll);
    assert forall|p: int| 0 <= p < m2.cells.len() implies #[trigger] spec_phase_traceable(
        m.cells,
        m2.cells[p],
    ) by {
        if m2.cells == m.cells {
            assert(m.cells[p].id == m2.cells[p].id && m.cells[p].phase <= m2.cells[p].phase
                <= m.cells[p].phase + 1);
        } else {
            match spec_find_hit(m.cells, cx, cy) {
                None => {},
                Some(i) => {
                    lemma_find_hit_char(m.cells, cx, cy, 0);
                    match m.selection {
                        None => {},
                        Some(sel) => {
                            let j = spec_index_of_id(m.cells, sel.id);
                            let w = choose|wi: int|
                                0 <= wi < m.cells.len() && {
                                    let cc = #[trigger] m.cells[wi];
                                    cc.id == sel.id && cc.phase == sel.phase && cc.col == sel.col
                                        && cc.corrupted == sel.corrupted
                                };
                            assert(0 <= j < m.cells.len() && m.cells[j].id == sel.id);
                            let target = spec_merged_target(
                                m.cells[i],
                                sel,
                                m.terminal_phase,
                                roll,
                            );
                            let u = m.cells.update(i, target);
                            u.remove_ensures(j);
                            let q = if p < j {
                                p
                            } else {
                                p + 1
                            };
                            assert(m2.cells[p] == u[q]);
                            assert(m.cells[i].wf(m.terminal_phase));
                            if q == i {
                                assert(m.cells[q].id == m2.cells[p].id && m.cells[q].phase
                                    <= m2.cells[p].phase <= m.cells[q].phase + 1);
                            } else {
                                assert(u[q] == m.cells[q]);
                                assert(m.cells[q].id == m2.cells[p].id && m.cells[q].phase
                                    <= m2.cells[p].phase <= m.cells[q].phase + 1);
                            }
                        },
                    }
                },
            }
        }
    }
}

/// The merge transition preserves the world invariant: the proof walks
/// the update-then-remove index mapping.
proof fn lemma_merge_wf(m: WorldModel, i: int, sel: Selection, roll: int, post: GameWorld)
    requires
        0 <= i < m.cells.len(),
        spec_merge_compatible(m.cells[i], sel),
        1 <= m.terminal_phase <= crate::cell::COLOR_COUNT,
        cells_wf(m.cells, m.terminal_phase),
        column_spaced(m.cells),
        ids_unique(m.cells),
        ids_bounded(m.cells, m.next_id),
        phases_below(m.cells, m.terminal_phase),
        selection_wf(m.cells, sel),
        m.state == RoundState::Playing,
        m.selection == Some(sel),
        post.model() == spec_merge(m, i, sel, roll),
    ensures
        post.wf(),
{
    let t = m.terminal_phase;
    let target = spec_merged_target(m.cells[i], sel, t, roll);
    let j = spec_index_of_id(m.cells, sel.id);
    let u = m.cells.update(i, target);
    let res = u.remove(j);
    // The source index is live and distinct from the target.
    let w = choose|wi: int|
        0 <= wi < m.cells.len() && {
            let cc = #[trigger] m.cells[wi];
            cc.id == sel.id && cc.phase == sel.phase && cc.col == sel.col && cc.corrupted
                == sel.corrupted
        };
    assert(0 <= j < m.cells.len() && m.cells[j].id == sel.id);
    assert(j != i);
    u.remove_ensures(j);
    assert(res.len() == m.cells.len() - 1);
    assert forall|p: int| 0 <= p < res.len() implies res[p] == (if p < j {
        u[p]
    } else {
        u[p + 1]
    }) by {
        if p < j {
            assert(u.remove(j)[p] == u[p]);
        } else {
            assert(u.remove(j)[p] == u[p + 1]);
        }
    }
    assert(m.cells[i].phase < t);
    assert(m.cells[i].wf(t));
    assert(target.wf(t));
    assert forall|p: int| 0 <= p < res.len() implies (#[trigger] res[p]).wf(t) by {
        let q = if p < j {
            p
        } else {
            p + 1
        };
        assert(res[p] == u[q]);
        if q != i {
            assert(u[q] == m.cells[q]);
        }
    }
    assert forall|p: int, q: int|
        #![trigger res[p], res[q]]
        0 <= p < q < res.len() && res[p].col == res[q].col implies res[p].height
        + grid::STEPS_PER_ROW <= res[q].height by {
        let p2 = if p < j {
            p
        } else {
            p + 1
        };
        let q2 = if q < j {
            q
        } else {
            q + 1
        };
        assert(res[p] == u[p2] && res[q] == u[q2]);
        assert(u[p2].col == m.cells[p2].col && u[p2].height == m.cells[p2].height);
        assert(u[q2].col == m.cells[q2].col && u[q2].height == m.cells[q2].height);
    }
    assert forall|p: int, q: int|
        #![trigger res[p].id, res[q].id]
        0 <= p < q < res.len() implies res[p].id != res[q].id by {
        let p2 = if p < j {
            p
        } else {
            p + 1
        };
        let q2 = if q < j {
            q
        } else {
            q + 1
        };
        assert(res[p] == u[p2] && res[q] == u[q2]);
        assert(u[p2].id == m.cells[p2].id && u[q2].id == m.cells[q2].id);
    }
    assert forall|p: int| 0 <= p < res.len() implies (#[trigger] res[p]).id < post.next_id by {
        let p2 = if p < j {
            p
        } else {
            p + 1
        };
        assert(res[p] == u[p2] && u[p2].id == m.cells[p2].id);
    }
    if post.state == RoundState::Playing {
        assert(!(target.phase as int == t));
        assert forall|p: int| 0 <= p < res.len() implies (#[trigger] res[p]).phase < t by {
            let p2 = if p < j {
                p
            } else {
                p + 1
            };
            assert(res[p] == u[p2]);
            if p2 != i {
                assert(u[p2] == m.cells[p2]);
            }
        }
    }
}

} // verus!
