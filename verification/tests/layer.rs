use arenic::arena::Arena;
use arenic::encounter::Difficulty;
use arenic::grid::IVec2;
use arenic::layer::{
    fold_stack, ActionDto, ArenaStack, Layer, LayerId, LayerKind, LayerScoreFile, LayerStack,
    MinionArchetype, MinionLayer,
};
use arenic::layer_edit::{delete, edit_notice, rename, toggle, EditNotice, LayerEdit, Switch};
use arenic::published::{legacy_stack, published_stack};
use arenic::sheet_rows::{sheet_rows, sheet_title, SheetRow};
use arenic::tile::TileKind;
use arenic::tile_script::{desired, TileKeyframe, TileSelector};
use arenic::timeline::{Action, ArenaTimeline, Recording, TimelineEvent};

fn rec(start: (i32, i32), ticks: &[u32]) -> Recording {
    Recording {
        start: IVec2::new(start.0, start.1),
        events: ticks.iter().map(|&tick| TimelineEvent { tick, action: Action::Move(IVec2::new(1, 0)) }).collect(),
    }
}

fn cell_frame(from: u32, to: u32, col: u8, row: u8, kind: TileKind) -> TileKeyframe {
    TileKeyframe { from, to, selector: TileSelector::Cell { col, row }, kind }
}

fn two_tile_stack() -> LayerStack {
    let mut stack = LayerStack::new();
    stack.layers.push(Layer::new(LayerId(0), "bottom".to_string(), LayerKind::Tiles(vec![cell_frame(0, 100, 2, 2, TileKind::Lava)])));
    stack.layers.push(Layer::new(LayerId(1), "top".to_string(), LayerKind::Tiles(vec![cell_frame(0, 100, 2, 2, TileKind::Normal)])));
    stack
}

#[test]
fn top_layer_wins_overlapping_cells() {
    let stack = two_tile_stack();
    let merged = stack.merged_tiles();
    assert_eq!(desired(&merged, 50, &[])[&(2, 2)], TileKind::Normal);
    let mut reversed = stack.copy();
    reversed.layers.reverse();
    assert_eq!(desired(&reversed.merged_tiles(), 50, &[])[&(2, 2)], TileKind::Lava);
}

#[test]
fn mute_and_solo_filter_the_fold() {
    let mut stack = two_tile_stack();
    stack.layers[1].muted = true;
    assert_eq!(desired(&stack.merged_tiles(), 50, &[])[&(2, 2)], TileKind::Lava);
    stack.layers[1].muted = false;
    stack.layers[0].solo = true;
    assert_eq!(desired(&stack.merged_tiles(), 50, &[])[&(2, 2)], TileKind::Lava);
}

#[test]
fn fold_stack_is_deterministic_and_binding_scoped() {
    let (boss, minion) = (10u64, 11u64);
    let mut stack = LayerStack::new();
    stack.layers.push(Layer::new(LayerId(0), "Boss".to_string(), LayerKind::Boss(rec((3, 3), &[5, 10]))));
    stack.layers.push(Layer::new(
        LayerId(1),
        "Minion A".to_string(),
        LayerKind::Minion(MinionLayer {
            archetype: MinionArchetype::Token,
            spawn_tick: 60,
            despawn_tick: 600,
            spawn_tile: IVec2::new(1, 1),
            recording: rec((1, 1), &[60, 70]),
        }),
    ));
    let bindings = [(LayerId(0), boss), (LayerId(1), minion)];
    let (mut a, mut b) = (ArenaTimeline::new(), ArenaTimeline::new());
    fold_stack(&stack, &bindings, &mut a);
    fold_stack(&stack, &bindings, &mut b);
    let ticks: Vec<(u32, u64)> = a.events.iter().map(|e| (e.tick, e.ghost_id)).collect();
    assert_eq!(ticks, b.events.iter().map(|e| (e.tick, e.ghost_id)).collect::<Vec<_>>());
    assert_eq!(ticks, vec![(5, boss), (10, boss), (60, minion), (70, minion)]);
    let mut partial = ArenaTimeline::new();
    fold_stack(&stack, &[(LayerId(0), boss)], &mut partial);
    assert!(partial.events.iter().all(|e| e.ghost_id == boss));
}

#[test]
fn layered_file_round_trips_and_validates() {
    let mut stack = two_tile_stack();
    stack.layers.push(Layer::new(LayerId(2), "Boss".to_string(), LayerKind::Boss(rec((33, 15), &[0, 90]))));
    stack.layers[0].muted = true;
    let file = LayerScoreFile::from_stack(Arena::Hunter, Difficulty::Normal, &stack);
    assert!(file.validate(Arena::Hunter, Difficulty::Normal).is_ok());
    assert!(file.validate(Arena::Bard, Difficulty::Normal).is_err());
    let restored = file.stack();
    assert_eq!(restored.layers.len(), 3);
    assert!(restored.layers[0].muted);
    assert_eq!(restored.layers[2].name, "Boss");
}

#[test]
fn aim_payload_round_trips_action_file_action() {
    let aimed = Action::Ability { slot: 2, aim: Some(IVec2::new(1, -1)) };
    let dto: ActionDto = aimed.into();
    let back: Action = dto.into();
    assert_eq!(back, aimed);
    let legacy = ActionDto::Ability { slot: 3, aim: None };
    assert_eq!(Action::from(legacy), Action::Ability { slot: 3, aim: None });
}

#[test]
fn published_stack_is_clean_until_edited() {
    let stack = two_tile_stack();
    let mut arena = ArenaStack::loaded(stack, 4);
    assert!(!arena.dirty());
    assert!(toggle(&mut arena.stack, LayerId(1), Switch::Muted));
    assert!(arena.layer_dirty(LayerId(1)));
    assert!(!arena.layer_dirty(LayerId(0)));
    arena.mark_published(5);
    assert!(!arena.dirty());
    assert_eq!(arena.version, Some(5));
}

#[test]
fn layer_edits_rename_and_delete_by_id() {
    let mut stack = two_tile_stack();
    assert!(rename(&mut stack, LayerId(0), "lava"));
    assert!(!rename(&mut stack, LayerId(0), "lava"));
    assert_eq!(stack.layers[0].name, "lava");
    assert!(!rename(&mut stack, LayerId(9), "x"));
    assert!(delete(&mut stack, LayerId(0)));
    assert_eq!(stack.layers.len(), 1);
    assert_eq!(stack.layers[0].id, LayerId(1));
    assert!(!delete(&mut stack, LayerId(0)));
    assert_eq!(stack.next_id(), LayerId(2));
}

#[test]
fn legacy_pair_synthesizes_boss_then_tiles_at_the_newer_version() {
    let boss = rec((33, 15), &[5]);
    let tiles = vec![cell_frame(0, 60, 1, 1, TileKind::Lava)];
    let (version, stack) = legacy_stack(Some((1, boss)), Some((2, tiles.clone()))).unwrap();
    assert_eq!(version, 2);
    assert_eq!(stack.layers.len(), 2);
    assert!(matches!(stack.layers[0].kind, LayerKind::Boss(_)));
    assert!(matches!(stack.layers[1].kind, LayerKind::Tiles(_)));
    assert_eq!((stack.layers[0].id, stack.layers[1].id), (LayerId(0), LayerId(1)));
    let (version, only_tiles) = legacy_stack(None, Some((3, tiles))).unwrap();
    assert_eq!((version, only_tiles.layers.len(), only_tiles.layers[0].id), (3, 1, LayerId(0)));
    assert!(legacy_stack(None, None).is_none());
}

#[test]
fn edits_announce_saves_and_refolds_by_kind() {
    let both = EditNotice { saved: true, refold: true };
    let none = EditNotice { saved: false, refold: false };
    assert_eq!(edit_notice(LayerEdit::Rename, true), EditNotice { saved: true, refold: false });
    assert_eq!(edit_notice(LayerEdit::Toggle(Switch::Muted), true), both);
    assert_eq!(edit_notice(LayerEdit::Toggle(Switch::Solo), true), EditNotice { saved: false, refold: true });
    assert_eq!(edit_notice(LayerEdit::Toggle(Switch::Locked), true), none);
    assert_eq!(edit_notice(LayerEdit::Delete, true), both);
    assert_eq!(edit_notice(LayerEdit::Create, true), both);
    assert_eq!(edit_notice(LayerEdit::Rename, false), none);
    assert_eq!(edit_notice(LayerEdit::Delete, false), none);
}

#[test]
fn a_layered_file_wins_over_the_legacy_pair() {
    let layered = two_tile_stack();
    let boss = rec((1, 1), &[5]);
    let (version, stack) = published_stack(Some((7, layered)), Some((9, boss.clone())), None).unwrap();
    assert_eq!(version, 7);
    assert_eq!(stack.layers.len(), 2);
    assert_eq!(stack.layers[1].name, "top");
    let (version, legacy) = published_stack(None, Some((9, boss)), None).unwrap();
    assert_eq!((version, legacy.layers.len()), (9, 1));
    assert_eq!(legacy.layers[0].name, "Boss");
    assert!(published_stack(None, None, None).is_none());
}

#[test]
fn sheet_rows_list_the_top_layer_first_with_glyph_and_marker() {
    let mut stack = LayerStack::new();
    stack.layers.push(Layer::new(LayerId(0), "Boss".to_string(), LayerKind::Boss(rec((0, 0), &[1]))));
    stack.layers.push(Layer::new(LayerId(1), "Tiles".to_string(), LayerKind::Tiles(vec![])));
    let mut arena = ArenaStack::loaded(stack, 3);
    arena.stack.layers[0].muted = true;
    arena.stack.layers[1].solo = true;
    let rows = sheet_rows(&arena);
    assert_eq!(
        rows,
        vec![
            SheetRow { index: 1, id: LayerId(1), glyph: 'T', dirty: false, muted: false, solo: true, locked: false },
            SheetRow { index: 0, id: LayerId(0), glyph: 'B', dirty: true, muted: true, solo: false, locked: false },
        ]
    );
    assert_eq!(sheet_title(Arena::Thief), "DOPE SHEET \u{b7} pawnshop");
}
