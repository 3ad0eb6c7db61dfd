use arenic::grid::{IVec2, TileMover};
use arenic::modal::{modal_hint, modal_keys, open_modal, ModalInput};
use arenic::recording::{
    accept_choice, apply_choice, auto_stop, capture_intent, countdown_seconds, fmt_tick,
    handle_r_key, record_holy_nova, tick_countdown, fmt_remaining, record_label, record_timer, Choice, DraftTimeline, GhostChange, Prompt, RecordingState,
};
use arenic::timeline::{fold, Action, ArenaClock, ArenaTimeline, Recording, TimelineEvent, COUNTDOWN_TICKS, CYCLE_TICKS};

const HERO: u64 = 7;

#[test]
fn clock_text_is_minutes_and_padded_seconds() {
    assert_eq!(fmt_tick(0), "0:00");
    assert_eq!(fmt_tick(61 * 60), "1:01");
    assert_eq!(fmt_tick(CYCLE_TICKS - 1), "1:59");
    assert_eq!(fmt_tick(600 * 60), "10:00");
    assert_eq!(countdown_seconds(COUNTDOWN_TICKS), 3);
    assert_eq!(countdown_seconds(121), 3);
    assert_eq!(countdown_seconds(1), 1);
}

#[test]
fn r_arms_a_fresh_pair_and_asks_otherwise() {
    let mut state = RecordingState::Idle;
    let mut draft = DraftTimeline::new();
    let mut clock = ArenaClock { tick: 500, paused: false };
    let mut tl = ArenaTimeline::new();
    let tile = IVec2::new(4, 5);
    assert_eq!(handle_r_key(&mut state, &mut draft, &mut clock, &mut tl, false, false, tile), None);
    assert_eq!(state, RecordingState::Countdown { ticks_left: COUNTDOWN_TICKS });
    assert_eq!((clock.tick, clock.paused), (0, true));
    assert_eq!(draft.start, tile);
    // R during the countdown aborts it.
    assert_eq!(handle_r_key(&mut state, &mut draft, &mut clock, &mut tl, false, false, tile), None);
    assert_eq!(state, RecordingState::Idle);
    assert!(!clock.paused);
    assert_eq!(handle_r_key(&mut state, &mut draft, &mut clock, &mut tl, true, true, tile), Some(Prompt::RecordOverGhost));
    assert_eq!(handle_r_key(&mut state, &mut draft, &mut clock, &mut tl, false, true, tile), Some(Prompt::ReplaceStaff));
    state = RecordingState::Recording;
    assert_eq!(handle_r_key(&mut state, &mut draft, &mut clock, &mut tl, false, false, tile), Some(Prompt::LikeRecording));
}

#[test]
fn the_countdown_releases_the_clock_at_zero() {
    let mut state = RecordingState::Countdown { ticks_left: 2 };
    let mut clock = ArenaClock { tick: 0, paused: true };
    tick_countdown(&mut state, &mut clock);
    assert_eq!(state, RecordingState::Countdown { ticks_left: 1 });
    assert!(clock.paused);
    tick_countdown(&mut state, &mut clock);
    assert_eq!(state, RecordingState::Recording);
    assert!(!clock.paused);
    assert_eq!(auto_stop(&ArenaClock { tick: CYCLE_TICKS - 1, paused: false }), Some(Prompt::TimesUp));
    assert_eq!(auto_stop(&ArenaClock { tick: 10, paused: false }), None);
}

#[test]
fn commit_folds_the_draft_and_poses_the_ghost() {
    let mut state = RecordingState::Recording;
    let mut draft = DraftTimeline::new();
    draft.start = IVec2::new(3, 4);
    capture_intent(&mut draft, false, 12, [true, false, true]);
    assert_eq!(
        draft.events,
        vec![
            TimelineEvent { tick: 12, action: Action::Ability { slot: 2, aim: None } },
            TimelineEvent { tick: 12, action: Action::Ability { slot: 4, aim: None } },
        ]
    );
    capture_intent(&mut draft, true, 13, [true, true, true]);
    assert_eq!(draft.events.len(), 2);
    let mut clock = ArenaClock { tick: 99, paused: true };
    let mut tl = ArenaTimeline::new();
    let mut mover = TileMover::new(20, 20);
    let mut latch = true;
    assert_eq!(accept_choice(&mut latch, Choice::Commit), Some(true));
    assert_eq!(accept_choice(&mut latch, Choice::Commit), None);
    let fx = apply_choice(Choice::Commit, &mut state, &mut draft, &mut clock, &mut tl, HERO, false, None, IVec2::new(20, 20), &mut mover);
    assert_eq!(state, RecordingState::Idle);
    assert!(draft.events.is_empty());
    assert_eq!((clock.tick, clock.paused), (0, false));
    assert_eq!(tl.events.len(), 2);
    assert!(tl.events.iter().all(|e| e.ghost_id == HERO));
    assert_eq!((mover.col, mover.row), (3, 4));
    assert_eq!(fx.marker, GhostChange::Become(IVec2::new(3, 4)));
    assert_eq!(fx.store.map(|r| r.events.len()), Some(2));
    assert!(fx.snap_ghosts);
}

#[test]
fn take_control_unfolds_and_start_rearms() {
    let mut tl = ArenaTimeline::new();
    let staff = Recording { start: IVec2::new(1, 1), events: vec![TimelineEvent { tick: 5, action: Action::Move(IVec2::new(0, 1)) }] };
    fold(&mut tl, HERO, &staff);
    fold(&mut tl, 8, &staff);
    let mut state = RecordingState::Idle;
    let mut draft = DraftTimeline::new();
    let mut clock = ArenaClock { tick: 9, paused: true };
    let mut mover = TileMover::new(2, 2);
    let fx = apply_choice(Choice::TakeControl, &mut state, &mut draft, &mut clock, &mut tl, HERO, true, Some(&staff), IVec2::new(2, 2), &mut mover);
    assert_eq!(fx.marker, GhostChange::Release);
    assert!(tl.events.iter().all(|e| e.ghost_id == 8));
    assert!(!clock.paused);
    let fx = apply_choice(Choice::StartRecording, &mut state, &mut draft, &mut clock, &mut tl, HERO, false, Some(&staff), IVec2::new(2, 2), &mut mover);
    assert_eq!(state, RecordingState::Countdown { ticks_left: COUNTDOWN_TICKS });
    assert!(fx.snap_ghosts && fx.skip_hero);
    let fx = apply_choice(Choice::ReplayPrevious, &mut state, &mut draft, &mut clock, &mut tl, HERO, false, Some(&staff), IVec2::new(2, 2), &mut mover);
    assert_eq!(fx.marker, GhostChange::Become(IVec2::new(1, 1)));
    assert_eq!(tl.events.len(), 2);
}

#[test]
fn modal_keys_pick_confirm_cancel_and_wrap() {
    let mut latch = false;
    let mut clock = ArenaClock { tick: 3, paused: false };
    let mut modal = open_modal(&mut latch, &mut clock, Prompt::LikeRecording.options(), Prompt::LikeRecording.focus()).unwrap();
    assert!(latch && clock.paused);
    assert!(open_modal(&mut latch, &mut clock, vec![Choice::Cancel], 0).is_none());
    let none = ModalInput { digit: None, confirm: false, escape: false, next: false, prev: false };
    // The opening frame is swallowed.
    assert_eq!(modal_keys(&mut modal, ModalInput { confirm: true, ..none }), None);
    assert_eq!(modal_keys(&mut modal, ModalInput { digit: Some(2), ..none }), Some(Choice::Discard));
    assert_eq!(modal_keys(&mut modal, ModalInput { next: true, ..none }), None);
    assert_eq!(modal.focused, 2);
    assert_eq!(modal_keys(&mut modal, ModalInput { next: true, ..none }), None);
    assert_eq!(modal.focused, 0);
    assert_eq!(modal_keys(&mut modal, ModalInput { prev: true, ..none }), None);
    assert_eq!(modal.focused, 2);
    assert_eq!(modal_keys(&mut modal, ModalInput { escape: true, ..none }), Some(Choice::Cancel));
    assert_eq!(modal_keys(&mut modal, ModalInput { confirm: true, ..none }), Some(Choice::Discard));
}

#[test]
fn holy_nova_lands_in_the_draft_only_while_recording() {
    let mut draft = DraftTimeline::new();
    record_holy_nova(&mut draft, RecordingState::Idle, 5);
    record_holy_nova(&mut draft, RecordingState::Countdown { ticks_left: 30 }, 5);
    assert!(draft.events.is_empty());
    record_holy_nova(&mut draft, RecordingState::Recording, 42);
    assert_eq!(draft.events, vec![TimelineEvent { tick: 42, action: Action::Ability { slot: 1, aim: None } }]);
}

#[test]
fn the_record_button_reads_its_state_and_the_time_left() {
    assert_eq!(record_label(RecordingState::Idle), "Record");
    assert_eq!(record_label(RecordingState::Countdown { ticks_left: 3 }), "Stop");
    assert_eq!(record_label(RecordingState::Recording), "Stop");
    assert_eq!(fmt_remaining(CYCLE_TICKS), "02:00:00");
    assert_eq!(fmt_remaining(CYCLE_TICKS - 1), "01:59:98");
    assert_eq!(fmt_remaining(30), "00:00:50");
    assert_eq!(record_timer(RecordingState::Recording, CYCLE_TICKS - 1), "00:00:01");
    assert_eq!(record_timer(RecordingState::Recording, CYCLE_TICKS + 5), "00:00:00");
    assert_eq!(record_timer(RecordingState::Idle, 0), "");
    assert_eq!(record_timer(RecordingState::Countdown { ticks_left: 60 }, 0), "");
}

#[test]
fn the_modal_hint_names_only_keys_that_work() {
    assert_eq!(
        modal_hint(&vec![Choice::Commit, Choice::Cancel, Choice::Discard]),
        "[1-3] choose   [\u{2190}/\u{2192}] focus   [enter/space] confirm   [esc] cancel"
    );
    assert_eq!(
        modal_hint(&Prompt::TimesUp.options()),
        "[1-2] choose   [\u{2190}/\u{2192}] focus   [enter/space] confirm"
    );
}
