//! The rulebook of world input: which key (or per-frame step) may act given
//! the modal, the recording state, a confirmed edge-walk waiting to land, and
//! the author tile editor. An open modal pauses its arena and owns the
//! keyboard; a countdown holds the recording arena; a pending walk freezes
//! input for the one frame it needs; the tile editor borrows the arrows and
//! the world keys while it is open. The author tool's keys follow the same
//! rules.

use vstd::prelude::*;

use crate::recording::RecordingState;

verus! {

/// What gates world input this frame.
#[derive(Clone, Copy, PartialEq, Eq, Debug, Structural)]
pub struct InputGates {
    pub modal_open: bool,
    pub recording: RecordingState,
    pub pending_walk: bool,
    pub tile_editing: bool,
}

/// A world input, or a per-frame step of the recording flow.
#[derive(Clone, Copy, PartialEq, Eq, Debug, Structural)]
pub enum WorldInput {
    /// Arrow keys: step the selected character.
    Move,
    /// `R`: the recording flow.
    RecordKey,
    /// `1`: cast Holy Nova.
    HolyNova,
    /// `P`: zoom between the arena and the overworld.
    Zoom,
    /// `[` / `]`: page through the arenas.
    Paginate,
    /// `L`: kindle the board.
    Kindle,
    /// `Tab`: the next puck.
    CycleSelection,
    /// `Esc`: back to the title.
    BackToTitle,
    /// Land a confirmed edge-walk.
    PerformPendingWalk,
    /// Mirror pressed ability slots into the draft.
    CaptureIntent,
    /// Count the countdown down.
    TickCountdown,
    /// Stop a recording whose cycle filled.
    AutoStop,
    /// Author tool, `B`: possess or release the arena's boss.
    PossessBoss,
    /// Author tool, `D`: the next authoring difficulty.
    CycleDifficulty,
    /// Author tool, `2`-`4`: a possessed boss's live casts.
    BossCast,
    /// Author tool, `T`: open or close the tile editor.
    ToggleTileMode,
    /// Author tool, `F5`: restart the current arena.
    RestartArena,
    /// Author tool: the tile editor's own keys (cursor, scrub, marks, paint,
    /// save).
    EditorKey,
    /// Author tool, `F2` / `F3`: pop the dope sheet or the browser out.
    PopOutPanel,
}

/// Whether `input` may act under `g`.
pub open spec fn allowed(input: WorldInput, g: InputGates) -> bool {
    let idle = g.recording is Idle;
    let counting = g.recording is Countdown;
    let recording = g.recording is Recording;
    match input {
        WorldInput::Move => !g.modal_open && !counting && !g.pending_walk && !g.tile_editing,
        WorldInput::RecordKey => !g.modal_open && !g.pending_walk && !g.tile_editing,
        WorldInput::HolyNova => !g.modal_open && !counting && !g.pending_walk && !g.tile_editing,
        WorldInput::Zoom => true,
        WorldInput::Paginate => !g.tile_editing,
        WorldInput::Kindle => !g.modal_open && idle && !g.pending_walk && !g.tile_editing,
        WorldInput::CycleSelection => !g.modal_open && idle && !g.pending_walk && !g.tile_editing,
        WorldInput::BackToTitle => !g.modal_open && idle,
        WorldInput::PerformPendingWalk => g.pending_walk && !g.modal_open && idle,
        WorldInput::CaptureIntent => recording && !g.modal_open,
        WorldInput::TickCountdown => counting && !g.modal_open,
        WorldInput::AutoStop => recording && !g.modal_open,
        WorldInput::PossessBoss => !g.modal_open && idle && !g.pending_walk && !g.tile_editing,
        WorldInput::CycleDifficulty => !g.modal_open && idle && !g.tile_editing,
        WorldInput::BossCast => !g.modal_open && !counting && !g.pending_walk && !g.tile_editing,
        WorldInput::ToggleTileMode => !g.modal_open && idle && !g.pending_walk,
        WorldInput::RestartArena => !g.modal_open && idle && !g.tile_editing,
        WorldInput::EditorKey => g.tile_editing && !g.modal_open,
        WorldInput::PopOutPanel => !g.modal_open,
    }
}

/// Whether `input` may act this frame.
pub fn input_allowed(input: WorldInput, g: InputGates) -> (ok: bool)
    ensures
        ok == allowed(input, g),
{
    let idle = matches!(g.recording, RecordingState::Idle);
    let counting = matches!(g.recording, RecordingState::Countdown { .. });
    let recording = matches!(g.recording, RecordingState::Recording);
    let free = !g.modal_open && !g.pending_walk && !g.tile_editing;
    match input {
        WorldInput::Move => free && !counting,
        WorldInput::RecordKey => free,
        WorldInput::HolyNova => free && !counting,
        WorldInput::Zoom => true,
        WorldInput::Paginate => !g.tile_editing,
        WorldInput::Kindle => free && idle,
        WorldInput::CycleSelection => free && idle,
        WorldInput::BackToTitle => !g.modal_open && idle,
        WorldInput::PerformPendingWalk => g.pending_walk && !g.modal_open && idle,
        WorldInput::CaptureIntent => recording && !g.modal_open,
        WorldInput::TickCountdown => counting && !g.modal_open,
        WorldInput::AutoStop => recording && !g.modal_open,
        WorldInput::PossessBoss => free && idle,
        WorldInput::CycleDifficulty => !g.modal_open && idle && !g.tile_editing,
        WorldInput::BossCast => free && !counting,
        WorldInput::ToggleTileMode => !g.modal_open && idle && !g.pending_walk,
        WorldInput::RestartArena => !g.modal_open && idle && !g.tile_editing,
        WorldInput::EditorKey => g.tile_editing && !g.modal_open,
        WorldInput::PopOutPanel => !g.modal_open,
    }
}

/// An open modal holds the world: while it is up, nothing that changes the
/// sim acts. Only the camera's zoom and arena paging stay live.
pub proof fn law_a_modal_holds_the_world(input: WorldInput, g: InputGates)
    requires
        g.modal_open,
        allowed(input, g),
    ensures
        input == WorldInput::Zoom || input == WorldInput::Paginate,
{
}

/// While a confirmed edge-walk waits to land, no input can move, record,
/// cast or reselect; the walk itself is what lands next.
pub proof fn law_a_pending_walk_freezes_input(input: WorldInput, g: InputGates)
    requires
        g.pending_walk,
        allowed(input, g),
    ensures
        input != WorldInput::Move,
        input != WorldInput::RecordKey,
        input != WorldInput::HolyNova,
        input != WorldInput::Kindle,
        input != WorldInput::CycleSelection,
        input != WorldInput::PossessBoss,
        input != WorldInput::BossCast,
        input != WorldInput::ToggleTileMode,
{
}

/// The tile editor's keys and the world's keys never act in the same frame:
/// while the editor is open it owns the arrows and the world keys, and it
/// acts only while open.
pub proof fn law_the_tile_editor_owns_its_keys(input: WorldInput, g: InputGates)
    requires
        allowed(input, g),
    ensures
        input == WorldInput::EditorKey ==> g.tile_editing,
        g.tile_editing ==> input != WorldInput::Move && input != WorldInput::RecordKey && input
            != WorldInput::HolyNova && input != WorldInput::Paginate && input != WorldInput::Kindle && input
            != WorldInput::CycleSelection && input != WorldInput::PossessBoss && input != WorldInput::BossCast,
{
}

} // verus!
