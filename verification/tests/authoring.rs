use arenic::author::{
    author_hud_line, cycle_difficulty, toggle_tile_mode, move_cursor, paint, possess_toggle, replay, scrub_poses, scrub_target, set_marks, Possession,
    TileEditor,
};
use arenic::arena::Arena;
use arenic::encounter::Difficulty;
use arenic::grid::{IVec2, TileMover, MAX_COL};
use arenic::rename::{committed_name, rename_input, TextKey};
use arenic::tile::TileKind;
use arenic::tile_script::{TileKeyframe, TileSelector};
use arenic::timeline::{Action, ArenaClock, GhostEvent, CYCLE_TICKS};

#[test]
fn marks_stay_a_non_empty_range() {
    let mut e = TileEditor::new();
    set_marks(&mut e, 100, false, true);
    assert_eq!((e.mark_in, e.mark_out), (0, 101));
    set_marks(&mut e, 500, true, false);
    assert_eq!((e.mark_in, e.mark_out), (500, CYCLE_TICKS));
    set_marks(&mut e, 200, false, true);
    assert_eq!((e.mark_in, e.mark_out), (200, 201));
}

#[test]
fn painting_toggles_a_cell_keyframe() {
    let mut e = TileEditor::new();
    move_cursor(&mut e, IVec2::new(100, -3));
    assert_eq!(e.cursor, IVec2::new(MAX_COL, 12));
    let other = TileKeyframe { from: 0, to: 9, selector: TileSelector::Row { row: 1 }, kind: TileKind::Lava };
    let mut keys = vec![other];
    paint(&mut keys, &e);
    assert_eq!(keys.len(), 2);
    assert_eq!(keys[1].selector, TileSelector::Cell { col: MAX_COL as u8, row: 12 });
    assert_eq!((keys[1].from, keys[1].to, keys[1].kind), (0, CYCLE_TICKS, TileKind::Lava));
    paint(&mut keys, &e);
    assert_eq!(keys, vec![other]);
}

#[test]
fn scrubs_step_whole_seconds_and_clamp() {
    assert_eq!(scrub_target(100, true, false, false), Some(160));
    assert_eq!(scrub_target(100, false, true, true), Some(0));
    assert_eq!(scrub_target(CYCLE_TICKS - 10, true, false, true), Some(CYCLE_TICKS - 1));
    assert_eq!(scrub_target(100, true, true, false), None);
}

#[test]
fn scrubbed_poses_replay_moves_from_the_starts() {
    let starts = vec![(1u64, IVec2::new(5, 5)), (2u64, IVec2::new(80, 3))];
    let window = [
        GhostEvent { tick: 0, ghost_id: 1, action: Action::Move(IVec2::new(1, 0)) },
        GhostEvent { tick: 1, ghost_id: 2, action: Action::Move(IVec2::new(1, 1)) },
        GhostEvent { tick: 2, ghost_id: 9, action: Action::Move(IVec2::new(1, 1)) },
        GhostEvent { tick: 3, ghost_id: 1, action: Action::Ability { slot: 1, aim: None } },
    ];
    let poses = scrub_poses(&starts, &window);
    assert_eq!((poses[0].0, poses[0].1.col, poses[0].1.row), (1, 6, 5));
    assert_eq!((poses[1].0, poses[1].1.col, poses[1].1.row), (2, MAX_COL, 4));
}

#[test]
fn unsaved_tiles_block_the_difficulty_cycle() {
    assert_eq!(cycle_difficulty(Difficulty::Normal, false), Difficulty::Heroic);
    assert_eq!(cycle_difficulty(Difficulty::Normal, true), Difficulty::Normal);
}

#[test]
fn rename_field_edits_and_trims() {
    let mut buf: Vec<char> = "Bo".chars().collect();
    let keys = vec![TextKey::Text("ss".to_string()), TextKey::Backspace, TextKey::Space, TextKey::Text("x".to_string())];
    assert_eq!(rename_input(&mut buf, &keys), None);
    assert_eq!(buf.iter().collect::<String>(), "Bos x");
    assert_eq!(rename_input(&mut buf, &vec![TextKey::Enter, TextKey::Escape]), Some(false));
    assert_eq!(rename_input(&mut buf, &vec![TextKey::Escape, TextKey::Other, TextKey::Enter]), Some(true));
    let padded: Vec<char> = "  Big Boss\t ".chars().collect();
    assert_eq!(committed_name(&padded), Some("Big Boss".to_string()));
    let blank: Vec<char> = " \u{3000}\n".chars().collect();
    assert_eq!(committed_name(&blank), None);
}

#[test]
fn b_possesses_the_current_boss_and_releases_to_the_first_puck() {
    let pucks = vec![(2u32, 5usize), (0, 3), (1, 0), (0, 8)];
    let bosses = vec![1usize, 3, 3];
    assert_eq!(possess_toggle(true, &pucks, &bosses, 3), Possession::Release { slot: 1, arena: 3 });
    assert_eq!(possess_toggle(true, &vec![], &bosses, 3), Possession::Stay);
    assert_eq!(possess_toggle(false, &pucks, &bosses, 3), Possession::Possess { boss: 1 });
    assert_eq!(possess_toggle(false, &pucks, &bosses, 4), Possession::Stay);
}

#[test]
fn the_author_hud_names_what_is_loaded_and_the_edit_range() {
    assert_eq!(
        author_hud_line(Difficulty::Heroic, Arena::Guildmaster, Some(3), None, None),
        "AUTHOR \u{b7} HEROIC \u{b7} guild-house \u{b7} boss v3 \u{b7} tiles --"
    );
    let editor = TileEditor { cursor: IVec2 { x: 4, y: 17 }, mark_in: 60, mark_out: CYCLE_TICKS };
    assert_eq!(
        author_hud_line(Difficulty::Normal, Arena::Bard, None, Some(12), Some(editor)),
        "AUTHOR \u{b7} NORMAL \u{b7} gala \u{b7} boss -- \u{b7} tiles v12 \u{b7} TILE (4,17) [0:01\u{2192}2:00]"
    );
}

#[test]
fn playing_in_pieces_matches_one_scrub() {
    let step = |tick: u32, ghost_id: u64, x: i32, y: i32| GhostEvent { tick, ghost_id, action: Action::Move(IVec2 { x, y }) };
    let events = vec![
        step(1, 1, 1, 0),
        step(2, 2, 0, 1),
        GhostEvent { tick: 3, ghost_id: 1, action: Action::Ability { slot: 1, aim: None } },
        step(4, 1, -5, 0),
        step(5, 9, 1, 1),
        step(6, 2, 0, -1),
    ];
    let start = vec![(1u64, TileMover::new(2, 2)), (2u64, TileMover::new(0, 0))];
    let mut whole = start.clone();
    replay(&mut whole, &events);
    assert_eq!(whole, vec![(1, TileMover::new(0, 2)), (2, TileMover::new(0, 0))]);
    let mut pieces = start.clone();
    replay(&mut pieces, &events[..2]);
    replay(&mut pieces, &events[2..]);
    assert_eq!(pieces, whole);
}

#[test]
fn the_tile_editor_pauses_its_arena_while_open() {
    let mut clock = ArenaClock::new();
    clock.tick = 90;
    assert!(toggle_tile_mode(false, &mut clock));
    assert!(clock.paused);
    assert!(!toggle_tile_mode(true, &mut clock));
    assert!(!clock.paused);
    assert_eq!(clock.tick, 90);
}
