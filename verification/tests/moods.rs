//! The mood tables and the animation pacing.

use aberration::cell::{
    mood_ending, mood_first, mood_last, mood_playing, new_cell, Cell, Mood,
};
use aberration::world::{GameInfo, GameWorld, RoundState};

fn world_with(cells: Vec<Cell>, state: RoundState, win_corrupted: bool) -> GameWorld {
    GameWorld {
        cells,
        selection: None,
        state,
        info: GameInfo {
            current_win_corrupted: win_corrupted,
            won_corrupted: false,
            won_normal: false,
            achieved_all_corrupted: false,
        },
        next_id: 100,
        terminal_phase: 6,
    }
}

#[test]
fn playing_mood_table() {
    assert_eq!(mood_playing(false, 0), Mood::NormalCalm);
    assert_eq!(mood_playing(false, 1), Mood::NormalCalm);
    assert_eq!(mood_playing(false, 2), Mood::NormalWorried);
    assert_eq!(mood_playing(false, 3), Mood::NormalWorried);
    assert_eq!(mood_playing(false, 4), Mood::NormalScared);
    assert_eq!(mood_playing(false, 9), Mood::NormalScared);
    assert_eq!(mood_playing(true, 0), Mood::CorruptedCalm);
    assert_eq!(mood_playing(true, 4), Mood::CorruptedCalm);
    assert_eq!(mood_playing(true, 5), Mood::CorruptedHappy);
}

#[test]
fn ending_mood_table() {
    assert_eq!(mood_ending(true, true), Mood::CorruptedHappy);
    assert_eq!(mood_ending(true, false), Mood::CorruptedCalm);
    assert_eq!(mood_ending(false, true), Mood::NormalScared);
    assert_eq!(mood_ending(false, false), Mood::NormalCalm);
}

#[test]
fn mood_ranges_tile_the_sprite_sheet() {
    let moods = [
        Mood::NormalCalm,
        Mood::NormalWorried,
        Mood::NormalScared,
        Mood::CorruptedCalm,
        Mood::CorruptedHappy,
    ];
    let mut next = 0;
    for m in moods {
        assert_eq!(mood_first(m), next);
        assert!(mood_last(m) > mood_first(m));
        next = mood_last(m) + 1;
    }
    assert_eq!(next, 100);
}

#[test]
fn expired_pause_starts_the_walk() {
    let mut c = new_cell(0, 0, 0, false, 100);
    c.pause_ms = 100;
    let mut w = world_with(vec![c], RoundState::Playing, false);
    w.animation_tick(100);
    assert_eq!(w.cells[0].mood, Mood::NormalCalm);
    assert_eq!(w.cells[0].sprite_index, 1);
    assert_eq!(w.cells[0].frame_ms, 50);
}

#[test]
fn frame_timer_paces_the_walk() {
    let mut c = new_cell(0, 0, 0, false, 2999);
    c.pause_ms = 0;
    c.sprite_index = 5;
    c.frame_ms = 50;
    let mut w = world_with(vec![c], RoundState::Playing, false);
    w.animation_tick(50);
    assert_eq!(w.cells[0].sprite_index, 6);
    assert_eq!(w.cells[0].frame_ms, 50);
    // A tick shorter than the timer advances nothing.
    w.animation_tick(20);
    assert_eq!(w.cells[0].sprite_index, 6);
    assert_eq!(w.cells[0].frame_ms, 30);
}

#[test]
fn last_frame_wraps_into_a_fresh_pause() {
    let mut c = new_cell(0, 0, 0, false, 100);
    c.sprite_index = 21;
    let mut w = world_with(vec![c], RoundState::Playing, false);
    w.animation_tick(1);
    assert_eq!(w.cells[0].sprite_index, 0);
    assert!(w.cells[0].pause_ms < 3000);
}

#[test]
fn mood_change_snaps_out_of_range_index_to_first() {
    // A corrupted newcomer starts on frame 1, outside CorruptedCalm's
    // range, and snaps to its first frame.
    let c = new_cell(0, 0, 0, true, 100);
    assert_eq!(c.sprite_index, 1);
    let mut w = world_with(vec![c], RoundState::Playing, false);
    w.animation_tick(0);
    assert_eq!(w.cells[0].mood, Mood::CorruptedCalm);
    assert_eq!(w.cells[0].sprite_index, 60);
}

#[test]
fn ending_moods_follow_the_outcome() {
    let clean = new_cell(0, 0, 0, false, 100);
    let bad = new_cell(1, 1, 0, true, 100);
    let mut w = world_with(vec![clean, bad], RoundState::Ending, true);
    w.animation_tick(1);
    assert_eq!(w.cells[0].mood, Mood::NormalScared);
    assert_eq!(w.cells[1].mood, Mood::CorruptedHappy);

    let clean = new_cell(0, 0, 0, false, 100);
    let bad = new_cell(1, 1, 0, true, 100);
    let mut w = world_with(vec![clean, bad], RoundState::Ending, false);
    w.animation_tick(1);
    assert_eq!(w.cells[0].mood, Mood::NormalCalm);
    assert_eq!(w.cells[1].mood, Mood::CorruptedCalm);
}

#[test]
fn neighbours_drive_the_mood_in_play() {
    // Five corrupted cells packed around one corrupted centre.
    let centre = new_cell(0, 1, 6, true, 100);
    let n1 = new_cell(1, 0, 0, true, 100);
    let n2 = new_cell(2, 0, 6, true, 100);
    let n3 = new_cell(3, 0, 12, true, 100);
    let n4 = new_cell(4, 1, 0, true, 100);
    let n5 = new_cell(5, 1, 12, true, 100);
    let mut w = world_with(vec![n1, n2, n3, n4, centre, n5], RoundState::Playing, false);
    w.neighbor_tick();
    assert_eq!(w.cells[4].corrupted_neighbors, 5);
    w.animation_tick(1);
    assert_eq!(w.cells[4].mood, Mood::CorruptedHappy);
    assert_eq!(w.cells[0].mood, Mood::CorruptedCalm);
}
