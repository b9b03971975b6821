//! The fixed lattice the cells live on: world-unit constants, the
//! integer (column, height) coordinates the core works in, and the
//! adjacency / hit tests in both coordinate systems.

use vstd::prelude::*;

verus! {

/// Side of one square cell, in world units.
pub const CELL_SIZE: i32 = 125;
/// Gap between two neighbouring cells.
pub const CELL_INTERVAL: i32 = 25;
/// Distance between two neighbouring lattice rows or columns.
pub const PITCH: i32 = CELL_SIZE + CELL_INTERVAL;
/// x of the leftmost column.
pub const MAP_START_X: i32 = -360;
/// y of the bottom (floor) row.
pub const FLOOR_Y: i32 = -225;
/// Number of play columns.
pub const COLS: u8 = 4;
/// Number of lattice rows of the initial grid.
pub const ROWS: u8 = 4;
/// How far a falling cell drops in one tick, in world units; divides
/// `PITCH`.
pub const FALL_STEP: i32 = 25;
/// y at which replacement cells appear, above the top row.
pub const SPAWN_Y: i32 = 375;
/// A column refills only while every cell in it sits strictly below
/// this y.
pub const SPAWN_CHECK_Y: i32 = 150;
/// Half-side of the square hit box around a cell's position.
pub const HIT_RADIUS: i32 = 50;
/// Fall steps between two lattice rows: `PITCH / FALL_STEP`.
pub const STEPS_PER_ROW: u8 = 6;
/// Height, in fall steps above the floor, at which new cells appear:
/// `(SPAWN_Y - FLOOR_Y) / FALL_STEP`.
pub const SPAWN_HEIGHT: u8 = 24;
/// A column refills only while every cell in it sits strictly below
/// this height: `(SPAWN_CHECK_Y - FLOOR_Y) / FALL_STEP`.
pub const SPAWN_CHECK_HEIGHT: u8 = 15;

/// World x of a cell standing in column `col`.
pub open spec fn spec_world_x(col: int) -> int {
    MAP_START_X + col * PITCH
}

/// World y of a cell standing `height` fall steps above the floor row.
pub open spec fn spec_world_y(height: int) -> int {
    FLOOR_Y + height * FALL_STEP
}

/// World x of column `col`, for the renderer.
pub fn world_x(col: u8) -> (x: i32)
    requires
        col < COLS,
    ensures
        x == spec_world_x(col as int),
{
    MAP_START_X + (col as i32) * PITCH
}

/// World y of lattice height `height`, for the renderer.
pub fn world_y(height: u8) -> (y: i32)
    requires
        height <= SPAWN_HEIGHT,
    ensures
        y == spec_world_y(height as int),
{
    FLOOR_Y + (height as i32) * FALL_STEP
}

/// Two world positions are adjacent for merging when both axis deltas
/// are at most one lattice pitch.
pub open spec fn spec_adjacent_world(ax: int, ay: int, bx: int, by: int) -> bool {
    &&& -PITCH <= ax - bx <= PITCH
    &&& -PITCH <= ay - by <= PITCH
}

/// The same adjacency test in lattice coordinates: at most one column
/// and at most one row's worth of fall steps apart.
pub open spec fn spec_adjacent(acol: int, aheight: int, bcol: int, bheight: int) -> bool {
    &&& -1 <= acol - bcol <= 1
    &&& -STEPS_PER_ROW <= aheight - bheight <= STEPS_PER_ROW
}

/// The lattice adjacency test agrees with the world-unit one.
pub proof fn lemma_adjacent_agrees(acol: int, aheight: int, bcol: int, bheight: int)
    requires
        0 <= acol < COLS,
        0 <= bcol < COLS,
        0 <= aheight <= SPAWN_HEIGHT,
        0 <= bheight <= SPAWN_HEIGHT,
    ensures
        spec_adjacent(acol, aheight, bcol, bheight) == spec_adjacent_world(
            spec_world_x(acol),
            spec_world_y(aheight),
            spec_world_x(bcol),
            spec_world_y(bheight),
        ),
{
    assert(spec_world_x(acol) - spec_world_x(bcol) == (acol - bcol) * PITCH) by (nonlinear_arith);
    assert(spec_world_y(aheight) - spec_world_y(bheight) == (aheight - bheight) * FALL_STEP)
        by (nonlinear_arith);
}

pub fn adjacent(acol: u8, aheight: u8, bcol: u8, bheight: u8) -> (r: bool)
    requires
        acol < COLS,
        bcol < COLS,
        aheight <= SPAWN_HEIGHT,
        bheight <= SPAWN_HEIGHT,
    ensures
        r == spec_adjacent(acol as int, aheight as int, bcol as int, bheight as int),
{
    let dc = acol as i32 - bcol as i32;
    let dh = aheight as i32 - bheight as i32;
    -1 <= dc && dc <= 1 && -(STEPS_PER_ROW as i32) <= dh && dh <= STEPS_PER_ROW as i32
}

/// A click at world `(cx, cy)` hits the cell at lattice `(col, height)`
/// when both axis deltas from the cell's world position are strictly
/// under the hit radius.
pub open spec fn spec_hits(cx: int, cy: int, col: int, height: int) -> bool {
    &&& -HIT_RADIUS < cx - spec_world_x(col) < HIT_RADIUS
    &&& -HIT_RADIUS < cy - spec_world_y(height) < HIT_RADIUS
}

pub fn hits(cx: i32, cy: i32, col: u8, height: u8) -> (r: bool)
    requires
        col < COLS,
        height <= SPAWN_HEIGHT,
        -100000 <= cx <= 100000,
        -100000 <= cy <= 100000,
    ensures
        r == spec_hits(cx as int, cy as int, col as int, height as int),
{
    let x = world_x(col);
    let y = world_y(height);
    let dx = cx - x;
    let dy = cy - y;
    -HIT_RADIUS < dx && dx < HIT_RADIUS && -HIT_RADIUS < dy && dy < HIT_RADIUS
}

} // verus!
