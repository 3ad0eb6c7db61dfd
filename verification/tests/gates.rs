use arenic::gates::{input_allowed, InputGates, WorldInput};
use arenic::recording::RecordingState;
use arenic::states::{title_keys, AppState, TitleCommand};

fn gates(modal_open: bool, recording: RecordingState, pending_walk: bool, tile_editing: bool) -> InputGates {
    InputGates { modal_open, recording, pending_walk, tile_editing }
}

const ALL: [WorldInput; 19] = [
    WorldInput::Move,
    WorldInput::RecordKey,
    WorldInput::HolyNova,
    WorldInput::Zoom,
    WorldInput::Paginate,
    WorldInput::Kindle,
    WorldInput::CycleSelection,
    WorldInput::BackToTitle,
    WorldInput::PerformPendingWalk,
    WorldInput::CaptureIntent,
    WorldInput::TickCountdown,
    WorldInput::AutoStop,
    WorldInput::PossessBoss,
    WorldInput::CycleDifficulty,
    WorldInput::BossCast,
    WorldInput::ToggleTileMode,
    WorldInput::RestartArena,
    WorldInput::EditorKey,
    WorldInput::PopOutPanel,
];

#[test]
fn idle_play_allows_every_world_key() {
    let g = gates(false, RecordingState::Idle, false, false);
    for input in [
        WorldInput::Move,
        WorldInput::RecordKey,
        WorldInput::HolyNova,
        WorldInput::Zoom,
        WorldInput::Paginate,
        WorldInput::Kindle,
        WorldInput::CycleSelection,
        WorldInput::BackToTitle,
    ] {
        assert!(input_allowed(input, g));
    }
    assert!(!input_allowed(WorldInput::PerformPendingWalk, g));
    assert!(!input_allowed(WorldInput::CaptureIntent, g));
    assert!(!input_allowed(WorldInput::TickCountdown, g));
}

#[test]
fn a_modal_leaves_only_zoom_and_paging() {
    for recording in [RecordingState::Idle, RecordingState::Recording, RecordingState::Countdown { ticks_left: 9 }] {
        let g = gates(true, recording, false, false);
        for input in ALL {
            let expected = input == WorldInput::Zoom || input == WorldInput::Paginate;
            assert_eq!(input_allowed(input, g), expected);
        }
    }
}

#[test]
fn recording_and_countdown_gate_their_keys() {
    let rec = gates(false, RecordingState::Recording, false, false);
    assert!(input_allowed(WorldInput::Move, rec));
    assert!(input_allowed(WorldInput::CaptureIntent, rec));
    assert!(input_allowed(WorldInput::AutoStop, rec));
    assert!(!input_allowed(WorldInput::CycleSelection, rec));
    assert!(!input_allowed(WorldInput::Kindle, rec));
    assert!(!input_allowed(WorldInput::BackToTitle, rec));
    let count = gates(false, RecordingState::Countdown { ticks_left: 30 }, false, false);
    assert!(!input_allowed(WorldInput::Move, count));
    assert!(!input_allowed(WorldInput::HolyNova, count));
    assert!(input_allowed(WorldInput::RecordKey, count));
    assert!(input_allowed(WorldInput::TickCountdown, count));
}

#[test]
fn a_pending_walk_and_the_tile_editor_take_the_keys() {
    let walk = gates(false, RecordingState::Idle, true, false);
    assert!(input_allowed(WorldInput::PerformPendingWalk, walk));
    assert!(!input_allowed(WorldInput::Move, walk));
    assert!(!input_allowed(WorldInput::RecordKey, walk));
    assert!(input_allowed(WorldInput::BackToTitle, walk));
    let edit = gates(false, RecordingState::Idle, false, true);
    assert!(!input_allowed(WorldInput::Move, edit));
    assert!(!input_allowed(WorldInput::Paginate, edit));
    assert!(input_allowed(WorldInput::Zoom, edit));
    assert!(input_allowed(WorldInput::BackToTitle, edit));
}

#[test]
fn title_number_keys_pick_a_screen_or_quit() {
    assert_eq!(AppState::default(), AppState::Title);
    assert_eq!(title_keys(true, false, false), Some(TitleCommand::Enter(AppState::Intro)));
    assert_eq!(title_keys(false, true, false), Some(TitleCommand::Enter(AppState::Settings)));
    assert_eq!(title_keys(true, true, true), Some(TitleCommand::Quit));
    assert_eq!(title_keys(true, true, false), Some(TitleCommand::Enter(AppState::Intro)));
    assert_eq!(title_keys(false, false, false), None);
}

#[test]
fn author_keys_follow_the_same_rules() {
    let idle = gates(false, RecordingState::Idle, false, false);
    assert!(input_allowed(WorldInput::PossessBoss, idle));
    assert!(input_allowed(WorldInput::ToggleTileMode, idle));
    assert!(!input_allowed(WorldInput::EditorKey, idle));
    let editing = gates(false, RecordingState::Idle, false, true);
    assert!(input_allowed(WorldInput::EditorKey, editing));
    assert!(input_allowed(WorldInput::ToggleTileMode, editing));
    assert!(!input_allowed(WorldInput::CycleDifficulty, editing));
    assert!(!input_allowed(WorldInput::RestartArena, editing));
    let rec = gates(false, RecordingState::Recording, false, false);
    assert!(input_allowed(WorldInput::BossCast, rec));
    assert!(!input_allowed(WorldInput::ToggleTileMode, rec));
    assert!(input_allowed(WorldInput::PopOutPanel, rec));
}
