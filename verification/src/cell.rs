//! One grid cell: lattice position, merge phase, corruption trait,
//! derived mood, and the two countdown timers that pace its animation.

use vstd::prelude::*;
use crate::grid;

verus! {

/// Number of frames in the expression sprite sheet.
pub const SPRITE_COUNT: usize = 100;
/// Number of frames in the colour-overlay sprite sheet.
pub const COLOR_COUNT: u8 = 6;
/// The frame-advance timer restarts at this many milliseconds.
pub const FRAME_MS: u32 = 50;
/// A fresh idle-pause duration is drawn uniformly below this many
/// milliseconds.
pub const PAUSE_MS_BOUND: u32 = 3000;

/// Discrete animation mood, derived from the corruption trait and the
/// corrupted-neighbour count (or from the round outcome while ending).
#[derive(Clone, Copy, PartialEq, Eq, Structural, Debug)]
pub enum Mood {
    NormalCalm,
    NormalWorried,
    NormalScared,
    CorruptedCalm,
    CorruptedHappy,
}

/// First frame of `mood`'s contiguous range in the expression sheet.
pub open spec fn spec_mood_first(mood: Mood) -> int {
    match mood {
        Mood::NormalCalm => 0,
        Mood::NormalWorried => 22,
        Mood::NormalScared => 44,
        Mood::CorruptedCalm => 60,
        Mood::CorruptedHappy => 80,
    }
}

/// Last frame of `mood`'s contiguous range in the expression sheet.
pub open spec fn spec_mood_last(mood: Mood) -> int {
    match mood {
        Mood::NormalCalm => 21,
        Mood::NormalWorried => 43,
        Mood::NormalScared => 59,
        Mood::CorruptedCalm => 79,
        Mood::CorruptedHappy => 99,
    }
}

pub fn mood_first(mood: Mood) -> (r: usize)
    ensures
        r == spec_mood_first(mood),
{
    match mood {
        Mood::NormalCalm => 0,
        Mood::NormalWorried => 22,
        Mood::NormalScared => 44,
        Mood::CorruptedCalm => 60,
        Mood::CorruptedHappy => 80,
    }
}

pub fn mood_last(mood: Mood) -> (r: usize)
    ensures
        r == spec_mood_last(mood),
{
    match mood {
        Mood::NormalCalm => 21,
        Mood::NormalWorried => 43,
        Mood::NormalScared => 59,
        Mood::CorruptedCalm => 79,
        Mood::CorruptedHappy => 99,
    }
}

/// Mood during normal play, a pure function of the corruption trait and
/// the corrupted-neighbour count.
pub open spec fn spec_mood_playing(corrupted: bool, neighbors: int) -> Mood {
    if !corrupted {
        if neighbors < 2 {
            Mood::NormalCalm
        } else if neighbors >= 4 {
            Mood::NormalScared
        } else {
            Mood::NormalWorried
        }
    } else {
        if neighbors <= 4 {
            Mood::CorruptedCalm
        } else {
            Mood::CorruptedHappy
        }
    }
}

pub fn mood_playing(corrupted: bool, neighbors: usize) -> (r: Mood)
    ensures
        r == spec_mood_playing(corrupted, neighbors as int),
{
    if !corrupted {
        if neighbors < 2 {
            Mood::NormalCalm
        } else if neighbors >= 4 {
            Mood::NormalScared
        } else {
            Mood::NormalWorried
        }
    } else {
        if neighbors <= 4 {
            Mood::CorruptedCalm
        } else {
            Mood::CorruptedHappy
        }
    }
}

/// Mood while the round is ending, a pure function of the corruption
/// trait and of whether the corrupted ending was reached.
pub open spec fn spec_mood_ending(corrupted: bool, win_corrupted: bool) -> Mood {
    if corrupted {
        if win_corrupted {
            Mood::CorruptedHappy
        } else {
            Mood::CorruptedCalm
        }
    } else {
        if win_corrupted {
            Mood::NormalScared
        } else {
            Mood::NormalCalm
        }
    }
}

pub fn mood_ending(corrupted: bool, win_corrupted: bool) -> (r: Mood)
    ensures
        r == spec_mood_ending(corrupted, win_corrupted),
{
    if corrupted {
        if win_corrupted {
            Mood::CorruptedHappy
        } else {
            Mood::CorruptedCalm
        }
    } else {
        if win_corrupted {
            Mood::NormalScared
        } else {
            Mood::NormalCalm
        }
    }
}

/// The colour-overlay index a cell shows at `phase`: it advances with
/// each merge that stays below the terminal phase, so it trails the
/// phase by nothing until the terminal merge, which leaves it put.
pub open spec fn spec_color_for_phase(phase: int, terminal: int) -> int {
    if phase < terminal {
        phase
    } else {
        terminal - 1
    }
}

/// One cell of the playfield. Positions are lattice coordinates: the
/// column index, and the height above the floor row counted in fall
/// steps (one lattice row is `grid::STEPS_PER_ROW` fall steps). The
/// world position the renderer needs is `world_x` / `world_y`.
#[derive(Clone, Copy)]
pub struct Cell {
    /// Stable identity; never reused within one world.
    pub id: u64,
    /// Column index; fixed for the cell's whole life.
    pub col: u8,
    /// Fall steps above the floor row; only gravity lowers it.
    pub height: u8,
    /// Merge progress: 0 at spawn, +1 per successful merge.
    pub phase: u8,
    /// The corruption trait.
    pub corrupted: bool,
    /// Corrupted cells within one lattice pitch, recomputed every tick.
    pub corrupted_neighbors: usize,
    /// Derived animation mood.
    pub mood: Mood,
    /// Milliseconds left of the random idle pause.
    pub pause_ms: u32,
    /// Milliseconds left until the next animation frame.
    pub frame_ms: u32,
    /// Current frame in the expression sprite sheet.
    pub sprite_index: usize,
    /// Current frame in the colour-overlay sheet.
    pub color_index: u8,
}

impl Cell {
    /// Per-cell well-formedness: the cell stands in a play column,
    /// between floor and spawn height, its phase is within the
    /// configured bound, and its sprite indices are in range.
    pub open spec fn wf(self, terminal: int) -> bool {
        &&& self.col < grid::COLS
        &&& self.height <= grid::SPAWN_HEIGHT
        &&& self.phase <= terminal
        &&& self.sprite_index < SPRITE_COUNT
        &&& self.color_index == spec_color_for_phase(self.phase as int, terminal)
    }

    /// World x of this cell, for the renderer.
    pub fn world_x(&self) -> (x: i32)
        requires
            self.col < grid::COLS,
        ensures
            x == grid::spec_world_x(self.col as int),
    {
        grid::world_x(self.col)
    }

    /// World y of this cell, for the renderer.
    pub fn world_y(&self) -> (y: i32)
        requires
            self.height <= grid::SPAWN_HEIGHT,
        ensures
            y == grid::spec_world_y(self.height as int),
    {
        grid::world_y(self.height)
    }
}

/// Whether a click at world `(cx, cy)` hits `c`.
pub open spec fn spec_cell_hit(c: Cell, cx: int, cy: int) -> bool {
    grid::spec_hits(cx, cy, c.col as int, c.height as int)
}

/// Whether `a` and `b` stand within merge adjacency of one another.
pub open spec fn spec_cells_adjacent(a: Cell, b: Cell) -> bool {
    grid::spec_adjacent(a.col as int, a.height as int, b.col as int, b.height as int)
}

/// A freshly spawned cell: phase 0, mood and expression frame chosen by
/// the corruption trait, a random idle pause already drawn by the caller.
pub open spec fn spec_new_cell(id: u64, col: u8, height: u8, corrupted: bool, pause_roll: u32) -> Cell {
    Cell {
        id,
        col,
        height,
        phase: 0,
        corrupted,
        corrupted_neighbors: 0,
        mood: if corrupted { Mood::CorruptedCalm } else { Mood::NormalCalm },
        pause_ms: pause_roll,
        frame_ms: FRAME_MS,
        sprite_index: if corrupted { 1 } else { 0 },
        color_index: 0,
    }
}

pub fn new_cell(id: u64, col: u8, height: u8, corrupted: bool, pause_roll: u32) -> (c: Cell)
    requires
        pause_roll < PAUSE_MS_BOUND,
    ensures
        c == spec_new_cell(id, col, height, corrupted, pause_roll),
{
    Cell {
        id,
        col,
        height,
        phase: 0,
        corrupted,
        corrupted_neighbors: 0,
        mood: if corrupted { Mood::CorruptedCalm } else { Mood::NormalCalm },
        pause_ms: pause_roll,
        frame_ms: FRAME_MS,
        sprite_index: if corrupted { 1 } else { 0 },
        color_index: 0,
    }
}

} // verus!
