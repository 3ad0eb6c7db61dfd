use arenic::grid::{arrow_delta, arrow_pressed, step_movers, IVec2, TileMover, MAX_COL, MAX_ROW};
use arenic::recording::{DraftTimeline, Prompt, RecordingState};
use arenic::timeline::{Action, TimelineEvent};
use arenic::travel::{adjacent_entry, move_selected, next_puck, paginate, MoveOutcome};

#[test]
fn edge_walks_enter_the_adjacent_arena_on_the_opposite_edge() {
    assert_eq!(adjacent_entry(1, MAX_COL, 15, IVec2::new(1, 0)), Some((2, 0, 15)));
    assert_eq!(adjacent_entry(1, 0, 15, IVec2::new(-1, 0)), Some((0, MAX_COL, 15)));
    assert_eq!(adjacent_entry(4, 30, MAX_ROW, IVec2::new(0, 1)), Some((1, 30, 0)));
    assert_eq!(adjacent_entry(1, 30, 0, IVec2::new(0, -1)), Some((4, 30, MAX_ROW)));
}

#[test]
fn the_outer_border_does_not_wrap() {
    assert_eq!(adjacent_entry(0, 0, 15, IVec2::new(-1, 0)), None);
    assert_eq!(adjacent_entry(1, 30, MAX_ROW, IVec2::new(0, 1)), None);
    assert_eq!(adjacent_entry(8, MAX_COL, 15, IVec2::new(1, 0)), None);
    assert_eq!(adjacent_entry(7, 30, 0, IVec2::new(0, -1)), None);
}

#[test]
fn steps_inside_the_arena_are_not_edge_walks() {
    assert_eq!(adjacent_entry(4, 10, 10, IVec2::new(1, 0)), None);
}

#[test]
fn recorded_steps_land_in_the_draft_and_edges_interrupt() {
    let caches = [false; 9];
    let mut draft = DraftTimeline::new();
    let mut mover = TileMover::new(10, 10);
    let out = move_selected(&mut mover, &mut draft, RecordingState::Recording, false, false, 4, IVec2::new(1, 0), 42, &caches);
    assert_eq!(out, MoveOutcome::Stepped);
    assert_eq!((mover.col, mover.row), (11, 10));
    assert_eq!(draft.events, vec![TimelineEvent { tick: 42, action: Action::Move(IVec2::new(1, 0)) }]);
    let mut edge = TileMover::new(MAX_COL, 15);
    let out = move_selected(&mut edge, &mut draft, RecordingState::Recording, false, false, 4, IVec2::new(1, 0), 43, &caches);
    assert_eq!(out, MoveOutcome::Ask(Prompt::LeaveRecording));
    assert_eq!((edge.col, edge.row), (MAX_COL, 15));
    assert_eq!(draft.events.len(), 1);
}

#[test]
fn idle_edge_steps_walk_and_offer_a_cached_staff() {
    let mut caches = [false; 9];
    caches[5] = true;
    let mut draft = DraftTimeline::new();
    let mut mover = TileMover::new(MAX_COL, 7);
    let out = move_selected(&mut mover, &mut draft, RecordingState::Idle, false, false, 4, IVec2::new(1, 0), 0, &caches);
    assert_eq!(out, MoveOutcome::Walked { to: 5, ask: Some(Prompt::ReplayHere) });
    assert_eq!((mover.col, mover.row), (0, 7));
    let mut ghost = TileMover::new(3, 3);
    let out = move_selected(&mut ghost, &mut draft, RecordingState::Idle, true, false, 4, IVec2::new(1, 0), 0, &caches);
    assert_eq!(out, MoveOutcome::Ask(Prompt::BreakOut));
    assert_eq!((ghost.col, ghost.row), (3, 3));
    let mut boss = TileMover::new(MAX_COL, 7);
    let out = move_selected(&mut boss, &mut draft, RecordingState::Idle, false, true, 4, IVec2::new(1, 0), 0, &caches);
    assert_eq!(out, MoveOutcome::Stepped);
    assert_eq!(boss.col, MAX_COL);
    assert!(draft.events.is_empty());
}

#[test]
fn pagination_and_tab_cycle() {
    assert_eq!(paginate(8, true, false), 0);
    assert_eq!(paginate(0, false, true), 8);
    assert_eq!(paginate(4, true, true), 4);
    assert_eq!(next_puck(2, 3), 0);
    assert_eq!(next_puck(0, 3), 1);
}

#[test]
fn arrows_step_one_tile_per_press_and_cancel() {
    assert_eq!(arrow_delta(true, false, false, false), IVec2 { x: 1, y: 0 });
    assert_eq!(arrow_delta(false, true, true, false), IVec2 { x: -1, y: 1 });
    assert_eq!(arrow_delta(true, true, false, true), IVec2 { x: 0, y: -1 });
    assert!(!arrow_pressed(true, true, false, false));
    assert!(!arrow_pressed(false, false, false, false));
    assert!(arrow_pressed(false, false, false, true));
}

#[test]
fn every_mover_steps_and_stays_on_its_board() {
    let mut movers = vec![TileMover::new(0, 0), TileMover::new(10, 5), TileMover::new(MAX_COL, MAX_ROW)];
    step_movers(&mut movers, IVec2 { x: 1, y: 1 });
    assert_eq!(movers, vec![TileMover::new(1, 1), TileMover::new(11, 6), TileMover::new(MAX_COL, MAX_ROW)]);
    step_movers(&mut movers, IVec2 { x: -2, y: -7 });
    assert_eq!(movers, vec![TileMover::new(0, 0), TileMover::new(9, 0), TileMover::new(MAX_COL - 2, MAX_ROW - 7)]);
}
