use arenic::encounter::Difficulty;
use arenic::grid::IVec2;
use arenic::layer::{Layer, LayerId, LayerKind, LayerStack};
use arenic::recording::RecordingState;
use arenic::sync::{boss_bindings, boss_layer, needs_rescue, sync_gate, sync_target, Gate, ReadOutcome};
use arenic::timeline::{ArenaClock, Recording};

#[test]
fn the_sync_runs_at_wraps_and_spares_dirty_drafts() {
    let running0 = ArenaClock { tick: 0, paused: false };
    let held0 = ArenaClock { tick: 0, paused: true };
    let mid = ArenaClock { tick: 50, paused: false };
    let d = Difficulty::Normal;
    assert_eq!(sync_gate(false, false, &mid, None, false, d), Gate::Skip);
    assert_eq!(sync_gate(false, false, &held0, None, false, d), Gate::Skip);
    assert_eq!(sync_gate(false, false, &running0, None, false, d), Gate::Check);
    assert_eq!(sync_gate(true, false, &mid, Some((d, 3)), true, d), Gate::KeepDraft);
    assert_eq!(sync_gate(false, true, &mid, Some((Difficulty::Mythic, 3)), true, d), Gate::Check);
}

#[test]
fn swaps_follow_the_disk_and_failed_reads_hold() {
    let d = Difficulty::Heroic;
    assert_eq!(sync_target(None, d, ReadOutcome::Published(2), false), Some(Some((d, 2))));
    assert_eq!(sync_target(Some((d, 2)), d, ReadOutcome::Published(2), false), None);
    assert_eq!(sync_target(Some((d, 2)), d, ReadOutcome::Published(2), true), Some(Some((d, 2))));
    assert_eq!(sync_target(Some((d, 2)), d, ReadOutcome::Unpublished, false), Some(None));
    assert_eq!(sync_target(Some((d, 2)), d, ReadOutcome::Unreadable, false), None);
    assert_eq!(sync_target(Some((Difficulty::Normal, 2)), d, ReadOutcome::Unreadable, false), Some(None));
    assert_eq!(sync_target(None, d, ReadOutcome::Unpublished, false), None);
}

#[test]
fn the_boss_layer_binds_to_the_boss() {
    assert!(needs_rescue(true, Some((false, false)), RecordingState::Idle));
    assert!(!needs_rescue(true, Some((false, true)), RecordingState::Idle));
    assert!(!needs_rescue(true, Some((false, false)), RecordingState::Recording));
    assert!(!needs_rescue(false, Some((false, false)), RecordingState::Idle));
    let mut stack = LayerStack::new();
    stack.layers.push(Layer::new(LayerId(4), "Tiles".to_string(), LayerKind::Tiles(vec![])));
    let staff = Recording { start: IVec2::new(33, 15), events: vec![] };
    stack.layers.push(Layer::new(LayerId(5), "Boss".to_string(), LayerKind::Boss(staff)));
    let found = boss_layer(&stack);
    assert_eq!(found.as_ref().map(|(id, r)| (*id, r.start)), Some((LayerId(5), IVec2::new(33, 15))));
    assert_eq!(boss_bindings(&found, Some(99)), vec![(LayerId(5), 99)]);
    assert!(boss_bindings(&found, None).is_empty());
    stack.layers[1].muted = true;
    assert!(boss_layer(&stack).is_none());
}
