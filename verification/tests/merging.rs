//! The selection / merge state machine and the round bookkeeping.

use aberration::cell::{new_cell, Cell};
use aberration::grid::{world_x, world_y};
use aberration::world::{achievements_count, endings_count, GameInfo, GameWorld, RoundState};

fn world_with(cells: Vec<Cell>, next_id: u64, terminal: u8) -> GameWorld {
    GameWorld {
        cells,
        selection: None,
        state: RoundState::Playing,
        info: GameInfo {
            current_win_corrupted: false,
            won_corrupted: false,
            won_normal: false,
            achieved_all_corrupted: false,
        },
        next_id,
        terminal_phase: terminal,
    }
}

fn click_at(w: &mut GameWorld, col: u8, height: u8) {
    w.handle_primary_click(world_x(col), world_y(height), 0);
}

#[test]
fn clicking_empty_space_changes_nothing() {
    let mut w = world_with(vec![new_cell(0, 0, 0, false, 100)], 1, 6);
    w.handle_primary_click(world_x(3), world_y(18), 0);
    assert!(w.selection.is_none());
    assert_eq!(w.cells.len(), 1);
    assert_eq!(w.cells[0].phase, 0);
}

#[test]
fn first_click_arms_a_snapshot() {
    let mut w = world_with(vec![new_cell(7, 2, 6, true, 100)], 8, 6);
    click_at(&mut w, 2, 6);
    let sel = w.selection.expect("selection should be armed");
    assert_eq!(sel.id, 7);
    assert_eq!(sel.phase, 0);
    assert_eq!(sel.col, 2);
    assert_eq!(sel.height, 6);
    assert!(sel.corrupted);
    assert_eq!(w.cells.len(), 1);
}

#[test]
fn clicking_the_armed_cell_cancels() {
    let a = new_cell(0, 0, 0, false, 100);
    let b = new_cell(1, 1, 0, false, 100);
    let mut w = world_with(vec![a, b], 2, 6);
    click_at(&mut w, 0, 0);
    assert!(w.selection.is_some());
    click_at(&mut w, 0, 0);
    assert!(w.selection.is_none());
    assert_eq!(w.cells.len(), 2);
    assert_eq!(w.cells[0].phase, 0);
    assert!(!w.cells[0].corrupted);
    assert_eq!(w.cells[1].phase, 0);
}

#[test]
fn mismatched_phase_is_ignored_and_selection_stays() {
    let mut a = new_cell(0, 0, 0, false, 100);
    a.phase = 1;
    a.color_index = 1;
    let b = new_cell(1, 1, 0, false, 100);
    let mut w = world_with(vec![a, b], 2, 6);
    click_at(&mut w, 0, 0);
    click_at(&mut w, 1, 0);
    assert_eq!(w.cells.len(), 2);
    assert_eq!(w.cells[0].phase, 1);
    assert_eq!(w.cells[1].phase, 0);
    let sel = w.selection.expect("selection should stay armed");
    assert_eq!(sel.id, 0);
}

#[test]
fn non_adjacent_equal_phase_is_ignored() {
    let mut a = new_cell(0, 0, 0, false, 100);
    a.phase = 1;
    a.color_index = 1;
    let mut b = new_cell(1, 3, 0, false, 100);
    b.phase = 1;
    b.color_index = 1;
    let mut w = world_with(vec![a, b], 2, 6);
    click_at(&mut w, 0, 0);
    click_at(&mut w, 3, 0);
    assert_eq!(w.cells[0].phase, 1);
    assert_eq!(w.cells[1].phase, 1);
    let sel = w.selection.expect("selection should stay armed");
    assert_eq!(sel.id, 0);
}

#[test]
fn merging_two_clean_cells_is_deterministic() {
    let a = new_cell(0, 0, 0, false, 100);
    let b = new_cell(1, 1, 0, false, 100);
    let mut w = world_with(vec![a, b], 2, 6);
    click_at(&mut w, 0, 0);
    click_at(&mut w, 1, 0);
    // The clicked-second cell survives at phase 1, still clean; the
    // armed cell is consumed; the selection is idle again.
    assert_eq!(w.cells.len(), 1);
    assert_eq!(w.cells[0].id, 1);
    assert_eq!(w.cells[0].phase, 1);
    assert!(!w.cells[0].corrupted);
    assert_eq!(w.cells[0].color_index, 1);
    assert!(w.selection.is_none());
    assert!(matches!(w.state, RoundState::Playing));
    assert!(!w.info.won_corrupted && !w.info.won_normal);
}

#[test]
fn merging_two_corrupted_cells_keeps_corruption() {
    let a = new_cell(0, 1, 6, true, 100);
    let b = new_cell(1, 1, 0, true, 100);
    let mut w = world_with(vec![b, a], 2, 6);
    click_at(&mut w, 1, 6);
    click_at(&mut w, 1, 0);
    assert_eq!(w.cells.len(), 1);
    assert_eq!(w.cells[0].id, 1);
    assert!(w.cells[0].corrupted);
    assert_eq!(w.cells[0].phase, 1);
}

fn terminal_merge(terminal: u8, corrupted: bool) -> GameWorld {
    let mut a = new_cell(0, 0, 0, corrupted, 100);
    a.phase = terminal - 1;
    a.color_index = terminal - 1;
    let mut b = new_cell(1, 1, 0, corrupted, 100);
    b.phase = terminal - 1;
    b.color_index = terminal - 1;
    let mut w = world_with(vec![a, b], 2, terminal);
    click_at(&mut w, 0, 0);
    click_at(&mut w, 1, 0);
    w
}

#[test]
fn terminal_merge_ends_the_round() {
    for terminal in [5u8, 6] {
        let w = terminal_merge(terminal, false);
        assert!(matches!(w.state, RoundState::Ending));
        assert_eq!(w.cells.len(), 1);
        assert_eq!(w.cells[0].phase, terminal);
        // The terminal merge no longer advances the colour overlay.
        assert_eq!(w.cells[0].color_index, terminal - 1);
        assert!(!w.info.current_win_corrupted);
        assert!(w.info.won_normal);
        assert!(!w.info.won_corrupted);
        assert!(w.selection.is_none());
    }
}

#[test]
fn terminal_merge_records_the_corrupted_outcome() {
    let w = terminal_merge(6, true);
    assert!(matches!(w.state, RoundState::Ending));
    assert!(w.info.current_win_corrupted);
    assert!(w.info.won_corrupted);
    assert!(!w.info.won_normal);
}

#[test]
fn restart_respawns_and_keeps_the_record() {
    let mut w = terminal_merge(6, true);
    w.restart();
    assert!(matches!(w.state, RoundState::Playing));
    assert!(w.selection.is_none());
    assert_eq!(w.cells.len(), 16);
    for c in w.cells.iter() {
        assert_eq!(c.phase, 0);
        assert!(!c.corrupted);
    }
    // Fresh identities, cumulative record preserved.
    assert!(w.cells.iter().all(|c| c.id >= 2));
    assert!(w.info.won_corrupted);
    assert!(w.info.current_win_corrupted);
}

#[test]
fn endings_and_achievements_counts() {
    let mut info = GameInfo {
        current_win_corrupted: false,
        won_corrupted: false,
        won_normal: false,
        achieved_all_corrupted: false,
    };
    assert_eq!(endings_count(&info), 0);
    assert_eq!(achievements_count(&info), 0);
    info.won_corrupted = true;
    assert_eq!(endings_count(&info), 1);
    info.won_normal = true;
    assert_eq!(endings_count(&info), 2);
    info.achieved_all_corrupted = true;
    assert_eq!(achievements_count(&info), 1);
}

#[test]
fn mixed_merge_follows_the_propagation_roll() {
    for roll in 0..10u32 {
        let a = new_cell(0, 0, 0, true, 100);
        let b = new_cell(1, 1, 0, false, 100);
        let mut w = world_with(vec![a, b], 2, 6);
        click_at(&mut w, 0, 0);
        w.handle_primary_click(world_x(1), world_y(0), roll);
        assert_eq!(w.cells.len(), 1);
        assert_eq!(w.cells[0].corrupted, roll < 9);
    }
}
