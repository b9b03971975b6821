//! The lattice, gravity, the refill rule, and neighbour counting.

use aberration::cell::{new_cell, Cell};
use aberration::grid::{adjacent, hits, world_x, world_y, SPAWN_HEIGHT};
use aberration::world::{GameInfo, GameWorld, RoundState};

fn world_with(cells: Vec<Cell>, next_id: u64) -> GameWorld {
    GameWorld {
        cells,
        selection: None,
        state: RoundState::Playing,
        info: GameInfo {
            current_win_corrupted: false,
            won_corrupted: false,
            won_normal: false,
            achieved_all_corrupted: false,
        },
        next_id,
        terminal_phase: 6,
    }
}

#[test]
fn lattice_world_coordinates() {
    assert_eq!(world_x(0), -360);
    assert_eq!(world_x(1), -210);
    assert_eq!(world_x(2), -60);
    assert_eq!(world_x(3), 90);
    assert_eq!(world_y(0), -225);
    assert_eq!(world_y(6), -75);
    assert_eq!(world_y(18), 225);
    assert_eq!(world_y(24), 375);
    let c = new_cell(0, 2, 7, false, 100);
    assert_eq!(c.world_x(), -60);
    assert_eq!(c.world_y(), -50);
}

#[test]
fn adjacency_is_one_pitch_each_axis() {
    assert!(adjacent(0, 0, 1, 6));
    assert!(adjacent(0, 0, 0, 6));
    assert!(adjacent(1, 6, 0, 0));
    assert!(adjacent(2, 12, 2, 12));
    assert!(!adjacent(0, 0, 2, 0));
    assert!(!adjacent(0, 0, 0, 12));
    assert!(!adjacent(3, 0, 1, 0));
}

#[test]
fn hit_box_is_strict_fifty() {
    assert!(hits(-360, -225, 0, 0));
    assert!(hits(-360 + 49, -225 - 49, 0, 0));
    assert!(!hits(-360 + 50, -225, 0, 0));
    assert!(!hits(-360, -225 - 50, 0, 0));
    assert!(!hits(0, 0, 0, 0));
}

#[test]
fn full_grid_has_no_droppable_cell() {
    let mut w = GameWorld::new_game(6);
    let before: Vec<(u8, u8)> = w.cells.iter().map(|c| (c.col, c.height)).collect();
    w.gravity_tick();
    let after: Vec<(u8, u8)> = w.cells.iter().map(|c| (c.col, c.height)).collect();
    assert_eq!(before, after);
}

#[test]
fn gravity_drops_exactly_one_cell_one_step() {
    let floor = new_cell(0, 0, 0, false, 100);
    let faller = new_cell(1, 0, 12, false, 100);
    let other = new_cell(2, 1, 0, false, 100);
    let mut w = world_with(vec![floor, faller, other], 3);
    w.gravity_tick();
    assert_eq!(w.cells[0].height, 0);
    assert_eq!(w.cells[1].height, 11);
    assert_eq!(w.cells[2].height, 0);
    // Heights never rise, and only one cell moved.
    w.gravity_tick();
    assert_eq!(w.cells[1].height, 10);
    assert_eq!(w.cells[0].height, 0);
    assert_eq!(w.cells[2].height, 0);
}

#[test]
fn gravity_stops_one_row_above_a_resting_cell() {
    let floor = new_cell(0, 2, 0, false, 100);
    let faller = new_cell(1, 2, 7, false, 100);
    let mut w = world_with(vec![floor, faller], 2);
    w.gravity_tick();
    assert_eq!(w.cells[1].height, 6);
    // Exactly one row above the resting cell: blocked for good.
    w.gravity_tick();
    assert_eq!(w.cells[1].height, 6);
    assert_eq!(w.cells[0].height, 0);
}

#[test]
fn full_grid_spawns_nothing() {
    let mut w = GameWorld::new_game(6);
    assert_eq!(w.cells.len(), 16);
    w.spawn_tick();
    assert_eq!(w.cells.len(), 16);
}

#[test]
fn open_columns_each_spawn_one_cell() {
    let only = new_cell(0, 0, 0, false, 100);
    let mut w = world_with(vec![only], 1);
    w.spawn_tick();
    // Every column sat below the refill threshold, so all four refill.
    assert_eq!(w.cells.len(), 5);
    for c in w.cells.iter().skip(1) {
        assert_eq!(c.height, SPAWN_HEIGHT);
        assert_eq!(c.phase, 0);
    }
    let mut cols: Vec<u8> = w.cells.iter().skip(1).map(|c| c.col).collect();
    cols.sort();
    assert_eq!(cols, vec![0, 1, 2, 3]);
    assert_eq!(w.next_id, 5);
    // No two cells share a position afterwards.
    for i in 0..w.cells.len() {
        for j in 0..w.cells.len() {
            if i != j {
                let a = &w.cells[i];
                let b = &w.cells[j];
                assert!(!(a.col == b.col && a.height == b.height));
            }
        }
    }
}

#[test]
fn high_cell_keeps_its_column_closed() {
    let high = new_cell(0, 1, 15, false, 100);
    let mut w = world_with(vec![high], 1);
    w.spawn_tick();
    assert_eq!(w.cells.len(), 4);
    let mut cols: Vec<u8> = w.cells.iter().skip(1).map(|c| c.col).collect();
    cols.sort();
    assert_eq!(cols, vec![0, 2, 3]);
}

#[test]
fn spawn_corruption_rate_is_seven_in_ten() {
    let mut corrupted = 0u32;
    let mut total = 0u32;
    for _ in 0..2500 {
        let mut w = world_with(vec![], 0);
        w.spawn_tick();
        for c in w.cells.iter() {
            total += 1;
            if c.corrupted {
                corrupted += 1;
            }
        }
    }
    assert_eq!(total, 10000);
    // 0.7 of 10000, with generous slack.
    assert!(corrupted >= 6700, "rate too low: {corrupted}/10000");
    assert!(corrupted <= 7300, "rate too high: {corrupted}/10000");
}

#[test]
fn neighbour_counts_corrupted_within_one_pitch() {
    let a = new_cell(0, 0, 0, true, 100);
    let b = new_cell(1, 1, 0, false, 100);
    let c = new_cell(2, 3, 0, true, 100);
    let d = new_cell(3, 1, 6, true, 100);
    let mut w = world_with(vec![a, b, c, d], 4);
    w.neighbor_tick();
    // b sees a (one column left) and d (one row up), both corrupted;
    // c is two columns away from b.
    assert_eq!(w.cells[1].corrupted_neighbors, 2);
    // a sees d (one column, one row); b is clean; c is far.
    assert_eq!(w.cells[0].corrupted_neighbors, 1);
    // c stands alone: two pitches from d and farther from the rest.
    assert_eq!(w.cells[2].corrupted_neighbors, 0);
    // d sees a; b is clean.
    assert_eq!(w.cells[3].corrupted_neighbors, 1);
}

#[test]
fn new_game_lays_out_a_clean_column_major_grid() {
    let w = GameWorld::new_game(6);
    assert_eq!(w.cells.len(), 16);
    for (i, c) in w.cells.iter().enumerate() {
        assert_eq!(c.id, i as u64);
        assert_eq!(c.col as usize, i / 4);
        assert_eq!(c.height as usize, (i % 4) * 6);
        assert_eq!(c.phase, 0);
        assert!(!c.corrupted);
        assert_eq!(c.sprite_index, 0);
        assert_eq!(c.color_index, 0);
    }
    assert_eq!(w.next_id, 16);
    assert!(matches!(w.state, RoundState::Playing));
    assert!(w.selection.is_none());
}

#[test]
fn frame_runs_gravity_and_refill() {
    // One cell hanging in mid-air over an otherwise empty board: the
    // frame must drop it one step and refill the three open columns.
    let faller = new_cell(0, 0, 18, false, 100);
    let mut w = world_with(vec![faller], 1);
    w.game_tick(None, 16);
    assert_eq!(w.cells[0].height, 17);
    assert_eq!(w.cells.len(), 4);
    let mut cols: Vec<u8> = w.cells.iter().skip(1).map(|c| c.col).collect();
    cols.sort();
    assert_eq!(cols, vec![1, 2, 3]);
    for c in w.cells.iter().skip(1) {
        assert_eq!(c.height, SPAWN_HEIGHT);
    }
}

#[test]
fn quiet_ticks_keep_the_full_grid_still() {
    let mut w = GameWorld::new_game(6);
    for _ in 0..10 {
        w.game_tick(None, 16);
        assert_eq!(w.cells.len(), 16);
        for c in w.cells.iter() {
            assert_eq!(c.phase, 0);
        }
    }
}
