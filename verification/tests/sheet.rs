use arenic::effect::{EaseKind, EffectKey, EffectKind, EffectTrack};
use arenic::layer::{Layer, LayerId, LayerKind, LayerStack};
use arenic::sheet_edit::{
    apply_move, collect_keys, delete_selected, ease_panel_line, duplicate_selected, f9_ease, first_ease,
    insert_key, jump_target, next_ease, normalize, nudge_selection, restore, set_ease,
    shift_tick, snapshot, SelKey, SheetSelection,
};
use arenic::sheet_modal::{modal_nudge, modal_op, modal_step_safe, parse_delta, start_move, start_ripple, EditOp};
use arenic::sheet_keys::{run_sheet_command, sheet_command, SheetCommand, SheetEffect, SheetKeys};
use arenic::timeline::{Recording, CYCLE_TICKS};
use arenic::grid::IVec2;

fn key(tick: u32, value: f32) -> EffectKey {
    EffectKey { tick, value_bits: value.to_bits(), ease: EaseKind::Linear }
}

fn ticks(stack: &LayerStack, layer: usize, track: usize) -> Vec<u32> {
    stack.layers[layer].effects[track].keys.iter().map(|k| k.tick).collect()
}

fn keyed_stack() -> LayerStack {
    let mut stack = LayerStack::new();
    let mut boss = Layer::new(LayerId(0), "Boss".to_string(), LayerKind::Boss(Recording { start: IVec2::new(0, 0), events: vec![] }));
    boss.effects.push(EffectTrack { kind: EffectKind::Scale, keys: vec![key(10, 1.0), key(20, 2.0), key(30, 3.0)] });
    boss.effects.push(EffectTrack { kind: EffectKind::Opacity, keys: vec![key(20, 0.5)] });
    stack.layers.push(boss);
    let mut other = Layer::new(LayerId(1), "Other".to_string(), LayerKind::Tiles(vec![]));
    other.effects.push(EffectTrack { kind: EffectKind::Scale, keys: vec![key(15, 1.0)] });
    stack.layers.push(other);
    stack
}

fn sel(layer: u32, kind: EffectKind, tick: u32) -> SelKey {
    SelKey { layer: LayerId(layer), kind, tick }
}

#[test]
fn normalize_sorts_and_the_last_key_at_a_tick_wins() {
    let mut track = EffectTrack { kind: EffectKind::Scale, keys: vec![key(30, 1.0), key(10, 2.0), key(30, 9.0)] };
    normalize(&mut track);
    assert_eq!(track.keys, vec![key(10, 2.0), key(30, 9.0)]);
}

#[test]
fn shifts_clamp_into_the_cycle() {
    assert_eq!(shift_tick(10, -100), 0);
    assert_eq!(shift_tick(10, 5), 15);
    assert_eq!(shift_tick(7000, 1000), CYCLE_TICKS - 1);
}

#[test]
fn column_and_all_selection_collect_in_stack_order() {
    let stack = keyed_stack();
    assert_eq!(
        collect_keys(&stack, None, Some(20)),
        vec![sel(0, EffectKind::Scale, 20), sel(0, EffectKind::Opacity, 20)]
    );
    assert_eq!(collect_keys(&stack, Some(LayerId(1)), None), vec![sel(1, EffectKind::Scale, 15)]);
    assert_eq!(collect_keys(&stack, None, None).len(), 5);
}

#[test]
fn a_move_collides_by_the_last_key_rule_and_cancel_restores() {
    let mut stack = keyed_stack();
    let picked = vec![sel(0, EffectKind::Scale, 10)];
    let saved = snapshot(&stack, &picked);
    apply_move(&mut stack, &saved, &picked, 10);
    // The moved key lands on 20: the key later in the track wins the tick.
    assert_eq!(ticks(&stack, 0, 0), [20, 30]);
    assert_eq!(f32::from_bits(stack.layers[0].effects[0].keys[0].value_bits), 2.0);
    restore(&mut stack, &saved);
    assert_eq!(ticks(&stack, 0, 0), [10, 20, 30]);
    assert_eq!(ticks(&stack, 1, 0), [15]);
}

#[test]
fn delete_duplicate_and_ease_act_on_the_selection() {
    let mut stack = keyed_stack();
    let picked = vec![sel(0, EffectKind::Scale, 20), sel(1, EffectKind::Scale, 15)];
    set_ease(&mut stack, &picked, EaseKind::Hold);
    assert_eq!(stack.layers[0].effects[0].keys[1].ease, EaseKind::Hold);
    assert_eq!(stack.layers[0].effects[0].keys[0].ease, EaseKind::Linear);
    assert_eq!(first_ease(&stack, &picked), Some(EaseKind::Hold));
    duplicate_selected(&mut stack, &picked);
    assert_eq!(ticks(&stack, 0, 0), [10, 20, 30, 20]);
    assert_eq!(ticks(&stack, 1, 0), [15, 15]);
    delete_selected(&mut stack, &picked);
    assert_eq!(ticks(&stack, 0, 0), [10, 30]);
    assert!(stack.layers[1].effects[0].keys.is_empty());
    assert_eq!(ticks(&stack, 0, 1), [20]);
}

#[test]
fn eases_cycle_and_f9_picks_by_modifier() {
    assert_eq!(next_ease(Some(EaseKind::Linear)), EaseKind::SineInOut);
    assert_eq!(next_ease(Some(EaseKind::Hold)), EaseKind::Linear);
    assert_eq!(next_ease(Some(EaseKind::QuadIn)), EaseKind::Linear);
    assert_eq!(next_ease(None), EaseKind::Linear);
    assert_eq!(f9_ease(false, false), EaseKind::SineInOut);
    assert_eq!(f9_ease(false, true), EaseKind::SineIn);
    assert_eq!(f9_ease(true, true), EaseKind::SineOut);
}

#[test]
fn inserting_creates_the_track_and_selects_the_key() {
    let mut stack = keyed_stack();
    let got = insert_key(&mut stack, LayerId(1), EffectKind::Opacity, 40, 1f32.to_bits());
    assert_eq!(got, Some(sel(1, EffectKind::Opacity, 40)));
    assert_eq!(stack.layers[1].effects.len(), 2);
    assert_eq!(ticks(&stack, 1, 1), [40]);
    let got = insert_key(&mut stack, LayerId(0), EffectKind::Scale, 25, 0);
    assert_eq!(got, Some(sel(0, EffectKind::Scale, 25)));
    assert_eq!(ticks(&stack, 0, 0), [10, 20, 25, 30]);
    assert_eq!(insert_key(&mut stack, LayerId(7), EffectKind::Scale, 25, 0), None);
}

#[test]
fn jumps_find_the_nearest_key_either_way() {
    let stack = keyed_stack();
    assert_eq!(jump_target(&stack, None, 15, true), Some(20));
    assert_eq!(jump_target(&stack, None, 15, false), Some(10));
    assert_eq!(jump_target(&stack, Some(LayerId(1)), 15, true), None);
    assert_eq!(jump_target(&stack, None, 30, true), None);
}

#[test]
fn nudges_move_keys_and_the_selection_together() {
    let mut stack = keyed_stack();
    let mut picked = vec![sel(0, EffectKind::Scale, 30)];
    nudge_selection(&mut stack, &mut picked, true, true);
    assert_eq!(ticks(&stack, 0, 0), [10, 20, 45]);
    assert_eq!(picked, vec![sel(0, EffectKind::Scale, 45)]);
    nudge_selection(&mut stack, &mut picked, false, false);
    assert_eq!(ticks(&stack, 0, 0), [10, 20, 44]);
}

#[test]
fn numeric_entry_reads_signed_offsets() {
    assert_eq!(parse_delta(&vec!['1', '2']), Some(12));
    assert_eq!(parse_delta(&vec!['-', '7']), Some(-7));
    assert_eq!(parse_delta(&vec!['-']), None);
    assert_eq!(parse_delta(&vec![]), None);
    let huge: Vec<char> = "99999999999999999999".chars().collect();
    assert_eq!(parse_delta(&huge), None);
    let min: Vec<char> = "-9223372036854775808".chars().collect();
    assert_eq!(parse_delta(&min), Some(i64::MIN));
    assert_eq!(modal_nudge(true, false, true), 15);
    assert_eq!(modal_nudge(true, true, false), -1);
}

#[test]
fn a_modal_move_types_commits_and_reselects() {
    let mut stack = keyed_stack();
    let mut picked = vec![sel(0, EffectKind::Scale, 10)];
    let mut op = start_move(&stack, &picked);
    assert!(modal_step_safe(&op, 0, Some('5'), false, false));
    modal_op(&mut op, &mut stack, &mut picked, 0, Some('5'), false, false);
    assert_eq!(ticks(&stack, 0, 0), [15, 20, 30]);
    modal_op(&mut op, &mut stack, &mut picked, 1, None, false, true);
    assert!(matches!(op, EditOp::Idle));
    assert_eq!(ticks(&stack, 0, 0), [16, 20, 30]);
    assert_eq!(picked, vec![sel(0, EffectKind::Scale, 16)]);
}

#[test]
fn a_modal_ripple_cancel_puts_everything_back() {
    let mut stack = keyed_stack();
    let mut picked = vec![];
    let mut op = start_ripple(&stack, None, 20);
    modal_op(&mut op, &mut stack, &mut picked, 15, None, false, false);
    assert_eq!(ticks(&stack, 0, 0), [10, 35, 45]);
    assert_eq!(ticks(&stack, 1, 0), [15]);
    modal_op(&mut op, &mut stack, &mut picked, 0, Some('-'), false, false);
    assert_eq!(ticks(&stack, 0, 0), [5, 10, 15]);
    modal_op(&mut op, &mut stack, &mut picked, 0, None, true, false);
    assert!(matches!(op, EditOp::Idle));
    assert_eq!(ticks(&stack, 0, 0), [10, 20, 30]);
}

#[test]
fn clicks_focus_rows_and_select_pills() {
    let a = SelKey { layer: LayerId(1), kind: EffectKind::Scale, tick: 10 };
    let b = SelKey { layer: LayerId(2), kind: EffectKind::Opacity, tick: 20 };
    let mut sel = SheetSelection::default();
    sel.click_pill(a, false);
    assert_eq!(sel.layer, Some(LayerId(1)));
    assert_eq!(sel.keys, vec![a]);
    sel.click_pill(b, true);
    sel.click_pill(a, true);
    assert_eq!(sel.layer, Some(LayerId(1)));
    assert_eq!(sel.keys, vec![a, b]);
    sel.click_row(LayerId(3), true);
    assert_eq!(sel.layer, Some(LayerId(3)));
    assert_eq!(sel.keys, vec![a, b]);
    sel.click_row(LayerId(2), false);
    assert_eq!(sel.layer, Some(LayerId(2)));
    assert!(sel.keys.is_empty());
    sel.click_pill(b, false);
    sel.click_pill(a, false);
    assert_eq!(sel.keys, vec![a]);
}

#[test]
fn the_ease_panel_summarizes_the_selection() {
    assert_eq!(ease_panel_line(1, EaseKind::Linear), "1 key \u{b7} Linear \u{b7} T cycle \u{b7} H hold \u{b7} F9 ease");
    assert_eq!(ease_panel_line(12, EaseKind::ElasticOut), "12 keys \u{b7} ElasticOut \u{b7} T cycle \u{b7} H hold \u{b7} F9 ease");
    assert_eq!(ease_panel_line(0, EaseKind::Hold), "0 keys \u{b7} Hold \u{b7} T cycle \u{b7} H hold \u{b7} F9 ease");
}

fn no_keys() -> SheetKeys {
    SheetKeys {
        shift: false, ctrl: false, alt: false, a: false, d: false, g: false, h: false, i: false, j: false,
        k: false, t: false, w: false, x: false, delete: false, left: false, right: false, f9: false, space: false,
    }
}

#[test]
fn the_sheet_grammar_reads_keys_in_order() {
    let k = no_keys();
    assert_eq!(sheet_command(SheetKeys { k: true, ..k }, false, true, true), SheetCommand::Nothing);
    assert_eq!(sheet_command(SheetKeys { ctrl: true, k: true, ..k }, true, false, false), SheetCommand::SelectColumn);
    assert_eq!(sheet_command(SheetKeys { ctrl: true, a: true, ..k }, true, false, false), SheetCommand::SelectAll);
    assert_eq!(sheet_command(SheetKeys { alt: true, a: true, ..k }, true, false, true), SheetCommand::ClearSelection);
    assert_eq!(sheet_command(SheetKeys { i: true, ..k }, true, false, false), SheetCommand::InsertNeedsFocus);
    assert_eq!(sheet_command(SheetKeys { i: true, shift: true, ..k }, true, true, false), SheetCommand::Insert(EffectKind::Opacity));
    assert_eq!(sheet_command(SheetKeys { x: true, ..k }, true, true, false), SheetCommand::Nothing);
    assert_eq!(sheet_command(SheetKeys { x: true, ..k }, true, true, true), SheetCommand::Delete);
    assert_eq!(sheet_command(SheetKeys { shift: true, d: true, ..k }, true, true, true), SheetCommand::Duplicate);
    assert_eq!(
        sheet_command(SheetKeys { alt: true, shift: true, right: true, ..k }, true, true, true),
        SheetCommand::Nudge { later: true, coarse: true }
    );
    assert_eq!(
        sheet_command(SheetKeys { f9: true, ctrl: true, shift: true, ..k }, true, true, true),
        SheetCommand::SetEase(EaseKind::SineOut)
    );
    assert_eq!(sheet_command(SheetKeys { h: true, ..k }, true, true, true), SheetCommand::SetEase(EaseKind::Hold));
    assert_eq!(sheet_command(SheetKeys { t: true, ..k }, true, true, true), SheetCommand::CycleEase);
    assert_eq!(sheet_command(SheetKeys { g: true, ..k }, true, true, true), SheetCommand::StartMove);
    assert_eq!(sheet_command(SheetKeys { shift: true, w: true, ..k }, true, true, true), SheetCommand::StartRipple);
    assert_eq!(sheet_command(SheetKeys { space: true, k: true, ..k }, true, true, false), SheetCommand::TogglePlay);
    assert_eq!(sheet_command(SheetKeys { k: true, j: true, ..k }, true, true, true), SheetCommand::Jump { forward: true });
    assert_eq!(sheet_command(SheetKeys { j: true, ..k }, true, false, false), SheetCommand::Jump { forward: false });
    assert_eq!(sheet_command(k, true, true, true), SheetCommand::Nothing);
}

#[test]
fn sheet_commands_edit_the_stack_and_selection() {
    let mut stack = keyed_stack();
    let mut selection = SheetSelection::default();
    let mut op = EditOp::Idle;
    assert_eq!(
        run_sheet_command(SheetCommand::Insert(EffectKind::Scale), &mut stack, &mut selection, &mut op, 5, 1.5f32.to_bits()),
        SheetEffect::NeedsFocus
    );
    selection.click_row(LayerId(0), false);
    run_sheet_command(SheetCommand::Insert(EffectKind::Scale), &mut stack, &mut selection, &mut op, 5, 1.5f32.to_bits());
    assert_eq!(ticks(&stack, 0, 0), vec![5, 10, 20, 30]);
    assert_eq!(selection.keys, vec![sel(0, EffectKind::Scale, 5)]);
    run_sheet_command(SheetCommand::SelectColumn, &mut stack, &mut selection, &mut op, 20, 0);
    assert_eq!(selection.keys.len(), 2);
    run_sheet_command(SheetCommand::Delete, &mut stack, &mut selection, &mut op, 20, 0);
    assert!(selection.keys.is_empty());
    assert_eq!(ticks(&stack, 0, 0), vec![5, 10, 30]);
    assert!(stack.layers[0].effects[1].keys.is_empty());
    assert_eq!(run_sheet_command(SheetCommand::Jump { forward: true }, &mut stack, &mut selection, &mut op, 10, 0), SheetEffect::SeekTo(30));
    assert_eq!(run_sheet_command(SheetCommand::Jump { forward: false }, &mut stack, &mut selection, &mut op, 5, 0), SheetEffect::Stay);
    assert_eq!(run_sheet_command(SheetCommand::TogglePlay, &mut stack, &mut selection, &mut op, 5, 0), SheetEffect::TogglePlay);
    run_sheet_command(SheetCommand::SelectAll, &mut stack, &mut selection, &mut op, 0, 0);
    run_sheet_command(SheetCommand::SetEase(EaseKind::Hold), &mut stack, &mut selection, &mut op, 0, 0);
    assert!(stack.layers.iter().all(|l| l.effects.iter().all(|t| t.keys.iter().all(|k| k.ease == EaseKind::Hold))));
    run_sheet_command(SheetCommand::CycleEase, &mut stack, &mut selection, &mut op, 0, 0);
    assert_eq!(stack.layers[0].effects[0].keys[0].ease, EaseKind::Linear);
    run_sheet_command(SheetCommand::StartMove, &mut stack, &mut selection, &mut op, 0, 0);
    assert!(matches!(op, EditOp::Move { delta: 0, .. }));
}

#[test]
fn a_ripple_digit_adds_to_ten_times_the_offset() {
    let mut stack = keyed_stack();
    let mut picked = vec![];
    let mut op = start_ripple(&stack, None, 20);
    modal_op(&mut op, &mut stack, &mut picked, -5, None, false, false);
    assert!(matches!(op, EditOp::Ripple { delta: -5, .. }));
    modal_op(&mut op, &mut stack, &mut picked, 0, Some('3'), false, false);
    assert!(matches!(op, EditOp::Ripple { delta: -47, .. }));
    modal_op(&mut op, &mut stack, &mut picked, 0, Some('-'), false, false);
    assert!(matches!(op, EditOp::Ripple { delta: 47, .. }));
    modal_op(&mut op, &mut stack, &mut picked, 0, Some('2'), false, false);
    assert!(matches!(op, EditOp::Ripple { delta: 472, .. }));
}
