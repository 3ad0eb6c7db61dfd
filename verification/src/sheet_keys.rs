//! The dope sheet's non-modal key grammar: which edit one frame's keys ask
//! for, in the order the grammar checks them. Selection commands come first,
//! then insertion; with nothing selected only the transport (play, jumps)
//! works; with a selection, delete, duplicate, nudge, the ease ops and the
//! modal starts, and the transport last. While a modal op is in flight the
//! modal handler owns the keyboard and nothing here acts.

use vstd::prelude::*;

use crate::effect::{EaseKind, EffectKey, EffectKind};
use crate::layer::{position_of, LayerId, LayerModel, LayerStack};
use crate::sheet_edit::{
    collect_keys, collect_spec, delete_selected, duplicate_selected, f9_ease, first_ease, first_ease_spec, insert_key,
    inserted, jump_spec, jump_target, key_ticks, next_ease, next_ease_spec, nudge_selection, nudged, rewritten_all,
    set_ease, snap_view, snapshot_spec, KeyOp, SelKey, SheetSelection,
};
use crate::sheet_modal::{start_move, start_ripple, EditOp};

verus! {

/// The modifier keys held and the keys just pressed this frame.
#[derive(Clone, Copy, PartialEq, Eq, Debug, Structural)]
pub struct SheetKeys {
    pub shift: bool,
    pub ctrl: bool,
    pub alt: bool,
    pub a: bool,
    pub d: bool,
    pub g: bool,
    pub h: bool,
    pub i: bool,
    pub j: bool,
    pub k: bool,
    pub t: bool,
    pub w: bool,
    pub x: bool,
    pub delete: bool,
    pub left: bool,
    pub right: bool,
    pub f9: bool,
    pub space: bool,
}

/// What the keys ask the sheet to do.
#[derive(Clone, Copy, PartialEq, Eq, Debug, Structural)]
pub enum SheetCommand {
    /// Nothing this frame.
    Nothing,
    /// `Ctrl+K`: select the column of keys at the playhead, across layers.
    SelectColumn,
    /// `Ctrl+A`: select every key.
    SelectAll,
    /// `Alt+A`: select nothing.
    ClearSelection,
    /// `I` (`Shift+I`): key the focused layer's scale (opacity) at the
    /// playhead.
    Insert(EffectKind),
    /// `I` with no focused layer: a row must be focused first.
    InsertNeedsFocus,
    /// `X` / `Delete`: remove the selected keys.
    Delete,
    /// `Shift+D`: duplicate the selection in place and start moving it.
    Duplicate,
    /// `Alt+←/→` (`Shift`: coarse): nudge the selection a tick (fifteen).
    Nudge { later: bool, coarse: bool },
    /// `F9` / `H`: set the selected keys' ease.
    SetEase(EaseKind),
    /// `T`: cycle the ease of the selection.
    CycleEase,
    /// `G`: start moving the selection.
    StartMove,
    /// `Shift+W`: start a ripple from the playhead.
    StartRipple,
    /// `Space`: play or pause the arena.
    TogglePlay,
    /// `J` / `K`: jump the playhead to the previous / next key.
    Jump { forward: bool },
}

/// The F9 ease: in-out, `Shift` in, `Ctrl+Shift` out.
pub open spec fn f9_choice(ctrl: bool, shift: bool) -> EaseKind {
    if ctrl && shift {
        EaseKind::SineOut
    } else if shift {
        EaseKind::SineIn
    } else {
        EaseKind::SineInOut
    }
}

/// The transport keys, which work with or without a selection.
pub open spec fn transport(k: SheetKeys) -> SheetCommand {
    if k.space {
        SheetCommand::TogglePlay
    } else if k.k {
        SheetCommand::Jump { forward: true }
    } else if k.j {
        SheetCommand::Jump { forward: false }
    } else {
        SheetCommand::Nothing
    }
}

/// The command one frame's keys ask for. `idle`: no modal op is in flight;
/// `focused`: a layer row has focus; `selected`: at least one key is
/// selected.
pub open spec fn command_for(k: SheetKeys, idle: bool, focused: bool, selected: bool) -> SheetCommand {
    if !idle {
        SheetCommand::Nothing
    } else if k.ctrl && k.k {
        SheetCommand::SelectColumn
    } else if k.ctrl && k.a {
        SheetCommand::SelectAll
    } else if k.alt && k.a {
        SheetCommand::ClearSelection
    } else if k.i {
        if !focused {
            SheetCommand::InsertNeedsFocus
        } else if k.shift {
            SheetCommand::Insert(EffectKind::Opacity)
        } else {
            SheetCommand::Insert(EffectKind::Scale)
        }
    } else if !selected {
        transport(k)
    } else if k.x || k.delete {
        SheetCommand::Delete
    } else if k.shift && k.d {
        SheetCommand::Duplicate
    } else if k.alt && (k.left || k.right) {
        SheetCommand::Nudge { later: k.right, coarse: k.shift }
    } else if k.f9 {
        SheetCommand::SetEase(f9_choice(k.ctrl, k.shift))
    } else if k.h {
        SheetCommand::SetEase(EaseKind::Hold)
    } else if k.t {
        SheetCommand::CycleEase
    } else if k.g {
        SheetCommand::StartMove
    } else if k.shift && k.w {
        SheetCommand::StartRipple
    } else {
        transport(k)
    }
}

fn transport_command(k: SheetKeys) -> (c: SheetCommand)
    ensures
        c == transport(k),
{
    if k.space {
        SheetCommand::TogglePlay
    } else if k.k {
        SheetCommand::Jump { forward: true }
    } else if k.j {
        SheetCommand::Jump { forward: false }
    } else {
        SheetCommand::Nothing
    }
}

/// Reads one frame's keys as a sheet command.
pub fn sheet_command(k: SheetKeys, idle: bool, focused: bool, selected: bool) -> (c: SheetCommand)
    ensures
        c == command_for(k, idle, focused, selected),
{
    if !idle {
        SheetCommand::Nothing
    } else if k.ctrl && k.k {
        SheetCommand::SelectColumn
    } else if k.ctrl && k.a {
        SheetCommand::SelectAll
    } else if k.alt && k.a {
        SheetCommand::ClearSelection
    } else if k.i {
        if !focused {
            SheetCommand::InsertNeedsFocus
        } else if k.shift {
            SheetCommand::Insert(EffectKind::Opacity)
        } else {
            SheetCommand::Insert(EffectKind::Scale)
        }
    } else if !selected {
        transport_command(k)
    } else if k.x || k.delete {
        SheetCommand::Delete
    } else if k.shift && k.d {
        SheetCommand::Duplicate
    } else if k.alt && (k.left || k.right) {
        SheetCommand::Nudge { later: k.right, coarse: k.shift }
    } else if k.f9 {
        SheetCommand::SetEase(f9_ease(k.ctrl, k.shift))
    } else if k.h {
        SheetCommand::SetEase(EaseKind::Hold)
    } else if k.t {
        SheetCommand::CycleEase
    } else if k.g {
        SheetCommand::StartMove
    } else if k.shift && k.w {
        SheetCommand::StartRipple
    } else {
        transport_command(k)
    }
}

/// Nothing edits the keys while a modal op is in flight, and without a
/// selection nothing but selecting, inserting and the transport acts.
pub proof fn law_edits_need_an_idle_sheet_and_a_selection(k: SheetKeys, idle: bool, focused: bool, selected: bool)
    ensures
        !idle ==> command_for(k, idle, focused, selected) == SheetCommand::Nothing,
        !selected ==> match command_for(k, idle, focused, selected) {
            SheetCommand::Delete | SheetCommand::Duplicate | SheetCommand::Nudge { .. } | SheetCommand::SetEase(_)
            | SheetCommand::CycleEase | SheetCommand::StartMove | SheetCommand::StartRipple => false,
            _ => true,
        },
{
}

/// What the caller must do outside the stack after a command.
#[derive(Clone, Copy, PartialEq, Eq, Debug, Structural)]
pub enum SheetEffect {
    /// Nothing more.
    Stay,
    /// Play or pause the focused arena's clock.
    TogglePlay,
    /// Seek the focused arena to this tick and park its playhead there.
    SeekTo(u32),
    /// Tell the author to focus a layer row first.
    NeedsFocus,
}

/// `op` starts moving the selection `sel` of `s`: a snapshot of the tracks
/// it touches, the selection as the base, no delta, no digits typed.
pub open spec fn starts_move(op: EditOp, s: Seq<LayerModel>, sel: Seq<SelKey>) -> bool {
    op matches EditOp::Move { saved, base, delta, digits } && snap_view(saved@) == snapshot_spec(
        s,
        sel,
        sel.len() as int,
    ) && base@ == sel && delta == 0 && digits@.len() == 0
}

/// `op` starts a ripple from `playhead` over every key of the focused layer
/// (every layer without a focus).
pub open spec fn starts_ripple(op: EditOp, s: Seq<LayerModel>, focus: Option<LayerId>, playhead: u32) -> bool {
    op matches EditOp::Ripple { saved, origin, delta } && snap_view(saved@) == ({
        let scope = collect_spec(s, s.len() as int, focus, None);
        snapshot_spec(s, scope, scope.len() as int)
    }) && origin == playhead && delta == 0
}

/// What a command did to the stack, the selected keys and the op, and what
/// it left to the caller. `value_bits` is the value a new key gets (the
/// track's sampled value at the playhead, which the caller computes).
pub open spec fn ran(
    cmd: SheetCommand,
    s: Seq<LayerModel>,
    s2: Seq<LayerModel>,
    focus: Option<LayerId>,
    keys: Seq<SelKey>,
    keys2: Seq<SelKey>,
    op: EditOp,
    op2: EditOp,
    playhead: u32,
    value_bits: u32,
    fx: SheetEffect,
) -> bool {
    let same_stack = s2 == s;
    let same_keys = keys2 == keys;
    let same_op = op2 == op;
    match cmd {
        SheetCommand::Nothing => same_stack && same_keys && same_op && fx == SheetEffect::Stay,
        SheetCommand::SelectColumn => same_stack && same_op && keys2 == collect_spec(
            s,
            s.len() as int,
            None,
            Some(playhead),
        ) && fx == SheetEffect::Stay,
        SheetCommand::SelectAll => same_stack && same_op && keys2 == collect_spec(s, s.len() as int, None, None)
            && fx == SheetEffect::Stay,
        SheetCommand::ClearSelection => same_stack && same_op && keys2.len() == 0 && fx == SheetEffect::Stay,
        SheetCommand::Insert(kind) => same_op && match focus {
            None => same_stack && same_keys && fx == SheetEffect::NeedsFocus,
            Some(layer) => fx == SheetEffect::Stay && match position_of(s, layer) {
                Some(i) => inserted(s, s2, i, kind, EffectKey { tick: playhead, value_bits, ease: EaseKind::Linear })
                    && keys2 == seq![SelKey { layer, kind, tick: playhead }],
                None => same_stack && same_keys,
            },
        },
        SheetCommand::InsertNeedsFocus => same_stack && same_keys && same_op && fx == SheetEffect::NeedsFocus,
        SheetCommand::Delete => same_op && s2 == rewritten_all(s, keys, KeyOp::Delete) && keys2.len() == 0 && fx
            == SheetEffect::Stay,
        SheetCommand::Duplicate => same_keys && s2 == rewritten_all(s, keys, KeyOp::Duplicate) && starts_move(
            op2,
            s,
            keys,
        ) && fx == SheetEffect::Stay,
        SheetCommand::Nudge { later, coarse } => same_op && nudged(s, s2, keys, keys2, later, coarse) && fx
            == SheetEffect::Stay,
        SheetCommand::SetEase(e) => same_op && same_keys && s2 == rewritten_all(s, keys, KeyOp::Ease(e)) && fx
            == SheetEffect::Stay,
        SheetCommand::CycleEase => same_op && same_keys && s2 == rewritten_all(
            s,
            keys,
            KeyOp::Ease(next_ease_spec(first_ease_spec(s, keys))),
        ) && fx == SheetEffect::Stay,
        SheetCommand::StartMove => same_stack && same_keys && starts_move(op2, s, keys) && fx == SheetEffect::Stay,
        SheetCommand::StartRipple => same_stack && same_keys && starts_ripple(op2, s, focus, playhead) && fx
            == SheetEffect::Stay,
        SheetCommand::TogglePlay => same_stack && same_keys && same_op && fx == SheetEffect::TogglePlay,
        SheetCommand::Jump { forward } => same_stack && same_keys && same_op && match fx {
            SheetEffect::SeekTo(t) => jump_spec(key_ticks(s, focus), playhead, forward, Some(t)),
            SheetEffect::Stay => jump_spec(key_ticks(s, focus), playhead, forward, None),
            _ => false,
        },
    }
}

/// Carries out a sheet command on the focused arena's stack, the sheet's
/// selection and the modal op; the playhead is the focused arena's tick.
pub fn run_sheet_command(
    cmd: SheetCommand,
    stack: &mut LayerStack,
    sel: &mut SheetSelection,
    op: &mut EditOp,
    playhead: u32,
    value_bits: u32,
) -> (fx: SheetEffect)
    ensures
        final(sel).layer == old(sel).layer,
        ran(
            cmd,
            old(stack)@,
            final(stack)@,
            old(sel).layer,
            old(sel).keys@,
            final(sel).keys@,
            *old(op),
            *final(op),
            playhead,
            value_bits,
            fx,
        ),
{
    match cmd {
        SheetCommand::Nothing => SheetEffect::Stay,
        SheetCommand::SelectColumn => {
            sel.keys = collect_keys(stack, None, Some(playhead));
            SheetEffect::Stay
        },
        SheetCommand::SelectAll => {
            sel.keys = collect_keys(stack, None, None);
            SheetEffect::Stay
        },
        SheetCommand::ClearSelection => {
            sel.keys = Vec::new();
            SheetEffect::Stay
        },
        SheetCommand::Insert(kind) => match sel.layer {
            None => SheetEffect::NeedsFocus,
            Some(layer) => {
                if let Some(k) = insert_key(stack, layer, kind, playhead, value_bits) {
                    let mut only: Vec<SelKey> = Vec::new();
                    only.push(k);
                    sel.keys = only;
                }
                SheetEffect::Stay
            },
        },
        SheetCommand::InsertNeedsFocus => SheetEffect::NeedsFocus,
        SheetCommand::Delete => {
            delete_selected(stack, &sel.keys);
            sel.keys = Vec::new();
            SheetEffect::Stay
        },
        SheetCommand::Duplicate => {
            let next = start_move(stack, &sel.keys);
            duplicate_selected(stack, &sel.keys);
            *op = next;
            SheetEffect::Stay
        },
        SheetCommand::Nudge { later, coarse } => {
            nudge_selection(stack, &mut sel.keys, later, coarse);
            SheetEffect::Stay
        },
        SheetCommand::SetEase(e) => {
            set_ease(stack, &sel.keys, e);
            SheetEffect::Stay
        },
        SheetCommand::CycleEase => {
            let e = next_ease(first_ease(stack, &sel.keys));
            set_ease(stack, &sel.keys, e);
            SheetEffect::Stay
        },
        SheetCommand::StartMove => {
            *op = start_move(stack, &sel.keys);
            SheetEffect::Stay
        },
        SheetCommand::StartRipple => {
            *op = start_ripple(stack, sel.layer, playhead);
            SheetEffect::Stay
        },
        SheetCommand::TogglePlay => SheetEffect::TogglePlay,
        SheetCommand::Jump { forward } => match jump_target(stack, sel.layer, playhead, forward) {
            Some(t) => SheetEffect::SeekTo(t),
            None => SheetEffect::Stay,
        },
    }
}

} // verus!
