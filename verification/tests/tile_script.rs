use arenic::arena::Arena;
use arenic::encounter::{Difficulty, SCORE_FORMAT};
use arenic::grid::{GRID_H, GRID_W, MAX_COL, MAX_ROW};
use arenic::tile::TileKind;
use arenic::tile_delta::AppliedMap;
use arenic::grid::TileMover;
use arenic::tile_play::{kindle, play_tile_script, TileBoard, TileScript, BOARD_LEN, BOARD_W};
use arenic::tile_script::{cells_at, desired, AppliedCell, SineWave, TileKeyframe, TileScriptFile, TileSelector};
use bevy_platform::collections::HashMap;

fn frame(from: u32, to: u32, selector: TileSelector) -> TileKeyframe {
    TileKeyframe { from, to, selector, kind: TileKind::Lava }
}

fn wave(thickness: u8) -> TileSelector {
    TileSelector::SineWave(SineWave {
        amplitude_bits: 0f32.to_bits(),
        wavelength_bits: 8f32.to_bits(),
        speed_bits: 1f32.to_bits(),
        phase_bits: 0f32.to_bits(),
        thickness,
    })
}

#[test]
fn static_selectors_cover_what_they_say_and_clamp() {
    assert_eq!(cells_at(&TileSelector::Cell { col: 1, row: 5 }, &[]), vec![(1, 5)]);
    assert!(cells_at(&TileSelector::Cell { col: 200, row: 5 }, &[]).is_empty());
    assert_eq!(cells_at(&TileSelector::Row { row: 0 }, &[]).len(), GRID_W as usize);
    assert_eq!(cells_at(&TileSelector::Col { col: 0 }, &[]).len(), GRID_H as usize);
    let rect = cells_at(&TileSelector::Rect { c0: 3, r0: 4, c1: 1, r1: 2 }, &[]);
    assert_eq!(rect.len(), 9);
    assert!(rect.contains(&(1, 2)) && rect.contains(&(3, 4)));
    let clamped = cells_at(&TileSelector::Rect { c0: 64, r0: 29, c1: 200, r1: 200 }, &[]);
    assert_eq!(clamped.len(), 4);
}

#[test]
fn sine_wave_stays_in_bounds_and_animates() {
    // Over-amplitude centres (far above and below the board) clamp, never panic.
    let wild: Vec<i32> = (0..GRID_W).map(|c| if c % 2 == 0 { 55 } else { -25 }).collect();
    for (col, row) in cells_at(&wave(3), &wild) {
        assert!((col as i32) <= MAX_COL && (row as i32) <= MAX_ROW);
    }
    // A flat band of thickness 1 is exactly the middle row.
    let flat = vec![(GRID_H - 1) / 2; GRID_W as usize];
    let cells = cells_at(&wave(1), &flat);
    assert_eq!(cells.len(), GRID_W as usize);
    assert!(cells.iter().all(|&(_, row)| row == (GRID_H as u8 - 1) / 2));
    // Moving centres move the band.
    let later: Vec<i32> = flat.iter().map(|r| r + 3).collect();
    assert_ne!(cells_at(&wave(1), &flat), cells_at(&wave(1), &later));
}

#[test]
fn keyframe_ranges_are_end_exclusive_and_later_wins() {
    let cell = TileSelector::Cell { col: 2, row: 2 };
    let script = [frame(10, 20, cell)];
    assert!(desired(&script, 9, &[]).is_empty());
    assert_eq!(desired(&script, 10, &[]).len(), 1);
    assert_eq!(desired(&script, 19, &[]).len(), 1);
    assert!(desired(&script, 20, &[]).is_empty());
    let layered = [frame(0, 100, cell), TileKeyframe { from: 0, to: 100, selector: cell, kind: TileKind::Normal }];
    assert_eq!(desired(&layered, 50, &[])[&(2, 2)], TileKind::Normal);
}

#[test]
fn tile_script_readers_reject_foreign_headers() {
    let file = TileScriptFile {
        format: SCORE_FORMAT,
        arena: Arena::Hunter.index() as u8,
        difficulty: Difficulty::Heroic,
        keyframes: vec![],
    };
    assert!(file.validate(Arena::Hunter, Difficulty::Heroic).is_ok());
    assert!(file.validate(Arena::Bard, Difficulty::Heroic).is_err());
    assert!(file.validate(Arena::Hunter, Difficulty::Normal).is_err());
    let newer = TileScriptFile { format: SCORE_FORMAT + 1, ..file };
    assert!(newer.validate(Arena::Hunter, Difficulty::Heroic).is_err());
}

#[test]
fn a_thick_band_centres_on_the_wave() {
    let centres = vec![10; GRID_W as usize];
    let cells = cells_at(&wave(3), &centres);
    assert_eq!(cells.len(), 3 * GRID_W as usize);
    assert!(cells.iter().all(|&(_, row)| (9..=11).contains(&row)));
}

#[test]
fn playing_a_script_claims_cells_and_releasing_restores_them() {
    let mut board = vec![TileKind::Normal; BOARD_LEN];
    let at = |c: u8, r: u8| r as usize * BOARD_W + c as usize;
    board[at(3, 3)] = TileKind::Lava; // flipped by hand before the script
    let script = [
        TileKeyframe { from: 0, to: 10, selector: TileSelector::Cell { col: 2, row: 2 }, kind: TileKind::Lava },
        TileKeyframe { from: 0, to: 10, selector: TileSelector::Cell { col: 3, row: 3 }, kind: TileKind::Normal },
    ];
    let mut applied: AppliedMap = HashMap::new();
    play_tile_script(&desired(&script, 5, &[]), &mut applied, &mut board);
    assert_eq!(board[at(2, 2)], TileKind::Lava);
    assert_eq!(board[at(3, 3)], TileKind::Normal);
    assert_eq!(applied.len(), 2);
    assert_eq!(applied[&(3, 3)], AppliedCell { kind: TileKind::Normal, prior: TileKind::Lava });
    let snapshot = board.clone();
    play_tile_script(&desired(&script, 6, &[]), &mut applied, &mut board);
    assert_eq!(board, snapshot);
    play_tile_script(&desired(&script, 20, &[]), &mut applied, &mut board);
    assert_eq!(board[at(2, 2)], TileKind::Normal);
    assert_eq!(board[at(3, 3)], TileKind::Lava);
    assert!(applied.is_empty());
}

#[test]
fn a_live_script_plays_its_keyframes_and_keeps_its_flags() {
    let mut board = vec![TileKind::Normal; BOARD_LEN];
    let mut script = TileScript::default();
    assert!(script.keyframes.is_empty() && script.applied.is_empty() && !script.dirty);
    script.keyframes.push(frame(10, 20, TileSelector::Cell { col: 4, row: 1 }));
    script.dirty = true;
    script.play(5, &[], &mut board);
    assert!(board.iter().all(|k| *k == TileKind::Normal));
    script.play(10, &[], &mut board);
    assert_eq!(board[BOARD_W + 4], TileKind::Lava);
    assert_eq!(script.applied[&(4, 1)], AppliedCell { kind: TileKind::Lava, prior: TileKind::Normal });
    assert!(script.dirty);
    script.play(20, &[], &mut board);
    assert_eq!(board[BOARD_W + 4], TileKind::Normal);
    assert!(script.applied.is_empty());
    assert_eq!(script.keyframes.len(), 1);
}

#[test]
fn the_board_sets_reads_and_kindles_per_arena() {
    let mut board = TileBoard::new();
    assert_eq!(board.kind(0, 0, 0), Some(TileKind::Normal));
    assert_eq!(board.kind(9, 0, 0), None);
    assert_eq!(board.kind(0, BOARD_W, 0), None);
    board.set(4, 10, 3, TileKind::Lava);
    assert_eq!(board.kind(4, 10, 3), Some(TileKind::Lava));
    assert_eq!(board.kind(3, 10, 3), Some(TileKind::Normal));
    board.set(4, 500, 3, TileKind::Lava);
    kindle(&mut board, 2, TileMover::new(65, 30));
    assert_eq!(board.kind(2, 65, 30), Some(TileKind::Lava));
    let mut script = TileScript::default();
    script.keyframes.push(frame(0, 10, TileSelector::Cell { col: 10, row: 3 }));
    board.play_script(7, &mut script, 1, &[]);
    assert_eq!(board.kind(7, 10, 3), Some(TileKind::Lava));
    assert_eq!(board.kind(6, 10, 3), Some(TileKind::Normal));
    board.play_script(7, &mut script, 11, &[]);
    assert_eq!(board.kind(7, 10, 3), Some(TileKind::Normal));
}
