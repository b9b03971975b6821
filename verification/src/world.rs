//! The whole game state: the arena of cells, the armed selection, the
//! round state, and the cumulative round outcomes — with the global
//! well-formedness invariant every tick preserves.

use vstd::prelude::*;
use crate::cell;
use crate::cell::{Cell, Mood};
use crate::grid;
use crate::rng;

verus! {

/// Top-level round state: merging is possible only while `Playing`.
#[derive(Clone, Copy, PartialEq, Eq, Structural, Debug)]
pub enum RoundState {
    Playing,
    Ending,
}

/// The one armed selection: the chosen cell's identity and a snapshot
/// of its phase, position and corruption trait at arming time.
#[derive(Clone, Copy, PartialEq, Eq, Structural, Debug)]
pub struct Selection {
    pub id: u64,
    pub phase: u8,
    pub col: u8,
    pub height: u8,
    pub corrupted: bool,
}

/// Round outcomes: the current round's ending, and which endings have
/// ever been seen. Survives a restart.
#[derive(Clone, Copy, PartialEq, Eq, Structural, Debug)]
pub struct GameInfo {
    /// Whether the round that just ended merged a corrupted terminal cell.
    pub current_win_corrupted: bool,
    /// Whether the corrupted ending was ever reached.
    pub won_corrupted: bool,
    /// Whether the clean ending was ever reached.
    pub won_normal: bool,
    /// Whether every cell was ever corrupted at once.
    pub achieved_all_corrupted: bool,
}

/// The game world: every piece of state one round mutates.
pub struct GameWorld {
    /// The arena of live cells, in a stable scan order.
    pub cells: Vec<Cell>,
    /// The armed selection, if any.
    pub selection: Option<Selection>,
    /// Playing or Ending.
    pub state: RoundState,
    /// Cumulative and current round outcomes.
    pub info: GameInfo,
    /// Next fresh cell identity.
    pub next_id: u64,
    /// Reaching this phase ends the round.
    pub terminal_phase: u8,
}

/// The mathematical image of a world: the arena as a sequence beside
/// the scalar state. Transition functions are stated over this model.
#[verifier::ext_equal]
pub ghost struct WorldModel {
    pub cells: Seq<Cell>,
    pub selection: Option<Selection>,
    pub state: RoundState,
    pub info: GameInfo,
    pub next_id: int,
    pub terminal_phase: int,
}

impl GameWorld {
    /// The model this world denotes.
    pub open spec fn model(self) -> WorldModel {
        WorldModel {
            cells: self.cells@,
            selection: self.selection,
            state: self.state,
            info: self.info,
            next_id: self.next_id as int,
            terminal_phase: self.terminal_phase as int,
        }
    }
}

/// Every cell is well formed for the configured terminal phase.
pub open spec fn cells_wf(cells: Seq<Cell>, terminal: int) -> bool {
    forall|i: int| 0 <= i < cells.len() ==> (#[trigger] cells[i]).wf(terminal)
}

/// Cells of one column stand at least one lattice row apart, and later
/// arena entries stand higher: the scan order never puts a cell below
/// an earlier cell of its column.
pub open spec fn column_spaced(cells: Seq<Cell>) -> bool {
    forall|i: int, j: int|
        #![trigger cells[i], cells[j]]
        0 <= i < j < cells.len() && cells[i].col == cells[j].col
            ==> cells[i].height + grid::STEPS_PER_ROW <= cells[j].height
}

/// Cell identities are pairwise distinct.
pub open spec fn ids_unique(cells: Seq<Cell>) -> bool {
    forall|i: int, j: int|
        #![trigger cells[i].id, cells[j].id]
        0 <= i < j < cells.len() ==> cells[i].id != cells[j].id
}

/// Every live identity is below the next fresh one.
pub open spec fn ids_bounded(cells: Seq<Cell>, next_id: int) -> bool {
    forall|i: int| 0 <= i < cells.len() ==> (#[trigger] cells[i]).id < next_id
}

/// All phases are strictly below the terminal phase (holds while
/// `Playing`: the terminal merge leaves that state at once).
pub open spec fn phases_below(cells: Seq<Cell>, terminal: int) -> bool {
    forall|i: int| 0 <= i < cells.len() ==> (#[trigger] cells[i]).phase < terminal
}

/// An armed selection points at a live cell and its snapshot of phase,
/// column and trait still matches it (only a merge changes them, and a
/// merge consumes the selection); the snapshot height may be stale,
/// since the cell may have fallen while armed.
pub open spec fn selection_wf(cells: Seq<Cell>, sel: Selection) -> bool {
    &&& sel.col < grid::COLS
    &&& sel.height <= grid::SPAWN_HEIGHT
    &&& exists|i: int|
        0 <= i < cells.len() && {
            let c = #[trigger] cells[i];
            c.id == sel.id && c.phase == sel.phase && c.col == sel.col && c.corrupted
                == sel.corrupted
        }
}

impl GameWorld {
    /// The global invariant: well-formed cells, spaced columns, unique
    /// identities, a coherent selection, and no phase at the terminal
    /// while play goes on.
    pub open spec fn wf(self) -> bool {
        &&& 1 <= self.terminal_phase <= cell::COLOR_COUNT
        &&& cells_wf(self.cells@, self.terminal_phase as int)
        &&& column_spaced(self.cells@)
        &&& ids_unique(self.cells@)
        &&& ids_bounded(self.cells@, self.next_id as int)
        &&& self.state == RoundState::Playing ==> phases_below(
            self.cells@,
            self.terminal_phase as int,
        )
        &&& match self.selection {
            Some(sel) => selection_wf(self.cells@, sel),
            None => true,
        }
        &&& self.state == RoundState::Ending ==> self.selection is None
    }
}

/// A step that keeps every cell's identity, phase, column and trait in
/// place (appending freely) carries the selection's coherence with it.
pub proof fn lemma_selection_still_wf(pre: Seq<Cell>, post: Seq<Cell>, sel: Selection)
    requires
        selection_wf(pre, sel),
        post.len() >= pre.len(),
        forall|i: int|
            0 <= i < pre.len() ==> (#[trigger] post[i]).id == pre[i].id && post[i].phase
                == pre[i].phase && post[i].col == pre[i].col && post[i].corrupted
                == pre[i].corrupted,
    ensures
        selection_wf(post, sel),
{
    let w = choose|wi: int|
        0 <= wi < pre.len() && {
            let c = #[trigger] pre[wi];
            c.id == sel.id && c.phase == sel.phase && c.col == sel.col && c.corrupted
                == sel.corrupted
        };
    assert(post[w].id == sel.id && post[w].phase == sel.phase && post[w].col == sel.col
        && post[w].corrupted == sel.corrupted);
}

/// No two cells ever occupy one lattice position: distinct cells of one
/// column stand at distinct heights, a full row apart.
pub proof fn lemma_positions_exclusive(w: GameWorld)
    requires
        w.wf(),
    ensures
        forall|i: int, j: int|
            #![trigger w.cells@[i], w.cells@[j]]
            0 <= i < w.cells@.len() && 0 <= j < w.cells@.len() && i != j
                ==> !(w.cells@[i].col == w.cells@[j].col && w.cells@[i].height
                == w.cells@[j].height),
{
}

/// What the `i`-th cell of a fresh grid looks like: column-major over
/// `COLS` columns of `ROWS` resting rows, identity `base + i`, phase 0,
/// clean, calm, with some idle pause below the bound.
pub open spec fn initial_cell_ok(c: Cell, i: int, base: int) -> bool {
    &&& c.id == base + i
    &&& c.col == i / (grid::ROWS as int)
    &&& c.height == (i % (grid::ROWS as int)) * grid::STEPS_PER_ROW
    &&& c.phase == 0
    &&& !c.corrupted
    &&& c.corrupted_neighbors == 0
    &&& c.mood == Mood::NormalCalm
    &&& c.pause_ms < cell::PAUSE_MS_BOUND
    &&& c.frame_ms == cell::FRAME_MS
    &&& c.sprite_index == 0
    &&& c.color_index == 0
}

/// A fresh, fully populated starting grid with identities from `base`.
pub open spec fn spec_initial_cells(cells: Seq<Cell>, base: int) -> bool {
    &&& cells.len() == grid::COLS as int * grid::ROWS as int
    &&& forall|i: int| 0 <= i < cells.len() ==> initial_cell_ok(#[trigger] cells[i], i, base)
}

/// A fresh starting grid satisfies every structural part of the world
/// invariant.
pub proof fn lemma_initial_cells_wf(cells: Seq<Cell>, base: int, terminal: int)
    requires
        spec_initial_cells(cells, base),
        1 <= terminal <= cell::COLOR_COUNT,
        base + cells.len() <= u64::MAX,
    ensures
        cells_wf(cells, terminal),
        column_spaced(cells),
        ids_unique(cells),
        ids_bounded(cells, base + cells.len()),
        phases_below(cells, terminal),
{
    assert forall|i: int| 0 <= i < cells.len() implies (#[trigger] cells[i]).wf(terminal) by {
        assert(0 <= i / 4int < 4 && 0 <= i % 4int < 4);
    }
    assert forall|i: int, j: int|
        #![trigger cells[i], cells[j]]
        0 <= i < j < cells.len() && cells[i].col == cells[j].col implies cells[i].height
        + grid::STEPS_PER_ROW <= cells[j].height by {
        assert(i / 4int == j / 4int && i % 4int < j % 4int);
    }
}

/// Pushes a fresh starting grid onto an empty arena, drawing each
/// cell's idle pause.
fn push_initial_cells(cells: &mut Vec<Cell>, base: u64)
    requires
        old(cells).len() == 0,
        base + grid::COLS as int * grid::ROWS as int <= u64::MAX,
    ensures
        spec_initial_cells(final(cells)@, base as int),
{
    let total: u8 = grid::COLS * grid::ROWS;
    let mut i: u8 = 0;
    while i < total
        invariant
            i <= total,
            total == grid::COLS as int * grid::ROWS as int,
            base + total <= u64::MAX,
            cells@.len() == i as int,
            forall|k: int| 0 <= k < i as int ==> initial_cell_ok(#[trigger] cells@[k], k, base as int),
        decreases total - i,
    {
        let col: u8 = i / grid::ROWS;
        let row: u8 = i % grid::ROWS;
        let pause_roll = rng::rand_below(cell::PAUSE_MS_BOUND);
        let c = cell::new_cell(base + i as u64, col, row * grid::STEPS_PER_ROW, false, pause_roll);
        cells.push(c);
        i = i + 1;
    }
}

impl GameWorld {
    /// A new game: a full clean starting grid, nothing armed, playing,
    /// no outcome recorded yet. `terminal_phase` is the configured
    /// phase at which a merge ends the round.
    pub fn new_game(terminal_phase: u8) -> (w: GameWorld)
        requires
            1 <= terminal_phase <= cell::COLOR_COUNT,
        ensures
            w.wf(),
            spec_initial_cells(w.cells@, 0),
            w.selection is None,
            w.state == RoundState::Playing,
            w.info == (GameInfo {
                current_win_corrupted: false,
                won_corrupted: false,
                won_normal: false,
                achieved_all_corrupted: false,
            }),
            w.next_id == grid::COLS as int * grid::ROWS as int,
            w.terminal_phase == terminal_phase,
    {
        let mut cells: Vec<Cell> = Vec::new();
        push_initial_cells(&mut cells, 0);
        let w = GameWorld {
            cells,
            selection: None,
            state: RoundState::Playing,
            info: GameInfo {
                current_win_corrupted: false,
                won_corrupted: false,
                won_normal: false,
                achieved_all_corrupted: false,
            },
            next_id: grid::COLS as u64 * grid::ROWS as u64,
            terminal_phase,
        };
        proof {
            lemma_initial_cells_wf(w.cells@, 0, terminal_phase as int);
        }
        w
    }

    /// Restart after an ending: despawn every cell, respawn the
    /// starting grid with fresh identities, clear the selection, and
    /// play again. The cumulative outcome record survives.
    pub fn restart(&mut self)
        requires
            old(self).wf(),
            old(self).next_id + grid::COLS as int * grid::ROWS as int <= u64::MAX,
        ensures
            final(self).wf(),
            spec_initial_cells(final(self).cells@, old(self).next_id as int),
            final(self).selection is None,
            final(self).state == RoundState::Playing,
            final(self).info == old(self).info,
            final(self).next_id == old(self).next_id + grid::COLS as int * grid::ROWS as int,
            final(self).terminal_phase == old(self).terminal_phase,
    {
        let base = self.next_id;
        self.cells.clear();
        push_initial_cells(&mut self.cells, base);
        self.selection = None;
        self.state = RoundState::Playing;
        self.next_id = base + grid::COLS as u64 * grid::ROWS as u64;
        proof {
            lemma_initial_cells_wf(self.cells@, base as int, self.terminal_phase as int);
        }
    }
}

/// How many distinct endings have been seen: 2 when both, 1 when one,
/// else 0.
pub fn endings_count(info: &GameInfo) -> (r: u8)
    ensures
        r == (if info.won_corrupted && info.won_normal {
            2int
        } else if info.won_corrupted || info.won_normal {
            1int
        } else {
            0int
        }),
{
    if info.won_corrupted && info.won_normal {
        2
    } else if info.won_corrupted || info.won_normal {
        1
    } else {
        0
    }
}

/// How many secret achievements have been earned: 1 when every cell was
/// ever corrupted at once, else 0.
pub fn achievements_count(info: &GameInfo) -> (r: u8)
    ensures
        r == (if info.achieved_all_corrupted {
            1int
        } else {
            0int
        }),
{
    if info.achieved_all_corrupted {
        1
    } else {
        0
    }
}

} // verus!
