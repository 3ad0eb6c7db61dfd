use arenic::grid::IVec2;
use arenic::timeline::{
    advance, fold, restart, seek_window, take_due, tick_clock, unfold, Action, ArenaClock,
    ArenaTimeline, Recording, TimelineEvent, CYCLE_TICKS,
};

fn rec(start: (i32, i32), ticks: &[u32]) -> Recording {
    Recording {
        start: IVec2::new(start.0, start.1),
        events: ticks
            .iter()
            .map(|&tick| TimelineEvent { tick, action: Action::Move(IVec2::new(1, 0)) })
            .collect(),
    }
}

const A: u64 = 1;
const B: u64 = 2;

#[test]
fn fold_keeps_tick_order_and_is_stable_for_equal_ticks() {
    let mut tl = ArenaTimeline::new();
    fold(&mut tl, A, &rec((0, 0), &[5, 10]));
    fold(&mut tl, B, &rec((1, 1), &[5, 7]));
    let ticks: Vec<u32> = tl.events.iter().map(|e| e.tick).collect();
    assert_eq!(ticks, [5, 5, 7, 10]);
    assert_eq!(tl.events[0].ghost_id, A);
    assert_eq!(tl.events[1].ghost_id, B);
}

#[test]
fn refolding_the_same_ghost_is_idempotent() {
    let mut tl = ArenaTimeline::new();
    let staff = rec((0, 0), &[5, 10]);
    fold(&mut tl, A, &staff);
    fold(&mut tl, B, &rec((1, 1), &[7]));
    fold(&mut tl, A, &staff);
    assert_eq!(tl.events.len(), 3);
    assert_eq!(tl.events.iter().filter(|e| e.ghost_id == A).count(), 2);
    assert_eq!(tl.cursor, 0);
}

#[test]
fn unfold_removes_exactly_one_ghost_and_resyncs_the_cursor() {
    let mut tl = ArenaTimeline::new();
    fold(&mut tl, A, &rec((0, 0), &[5, 10]));
    fold(&mut tl, B, &rec((1, 1), &[7]));
    tl.cursor = 2;
    unfold(&mut tl, A, 8);
    assert_eq!(tl.events.len(), 1);
    assert_eq!(tl.events[0].ghost_id, B);
    assert_eq!(tl.cursor, 1);
}

#[test]
fn clock_wraps_to_zero_at_the_cycle_boundary() {
    assert_eq!(advance(0), 1);
    assert_eq!(advance(CYCLE_TICKS - 2), CYCLE_TICKS - 1);
    assert_eq!(advance(CYCLE_TICKS - 1), 0);
}

#[test]
fn seek_window_includes_the_target_tick_and_syncs_the_cursor() {
    let mut tl = ArenaTimeline::new();
    fold(&mut tl, A, &rec((0, 0), &[0, 3, 7]));
    fold(&mut tl, B, &rec((1, 1), &[3]));
    let (window, cursor) = seek_window(&tl.events, 3);
    assert_eq!(window.iter().map(|e| e.tick).collect::<Vec<_>>(), [0, 3, 3]);
    assert_eq!(cursor, 3);
    assert_eq!(seek_window(&tl.events, 2).1, 1);
    assert_eq!(seek_window(&tl.events, 9999).1, tl.events.len());
    assert_eq!(seek_window(&tl.events, 0).1, 1);
}

#[test]
fn partial_recording_plays_through_then_idles() {
    let mut tl = ArenaTimeline::new();
    fold(&mut tl, A, &rec((0, 0), &[0, 3]));
    let mut clock = ArenaClock { tick: 0, paused: false };
    for tick in 0..10u32 {
        clock.tick = tick;
        let _ = take_due(&mut tl, &clock);
    }
    assert_eq!(tl.cursor, tl.events.len());
}

#[test]
fn due_events_come_out_once_in_order() {
    let mut tl = ArenaTimeline::new();
    fold(&mut tl, A, &rec((0, 0), &[2, 4]));
    fold(&mut tl, B, &rec((1, 1), &[4]));
    let clock = ArenaClock { tick: 4, paused: false };
    let due = take_due(&mut tl, &clock);
    assert_eq!(due.iter().map(|e| (e.tick, e.ghost_id)).collect::<Vec<_>>(), [(2, A), (4, A), (4, B)]);
    assert!(take_due(&mut tl, &clock).is_empty());
}

#[test]
fn unfolding_a_folded_ghost_gives_back_the_timeline() {
    let mut tl = ArenaTimeline::new();
    fold(&mut tl, B, &rec((1, 1), &[1, 9]));
    let before: Vec<(u32, u64)> = tl.events.iter().map(|e| (e.tick, e.ghost_id)).collect();
    fold(&mut tl, A, &rec((0, 0), &[3, 9]));
    unfold(&mut tl, A, 0);
    let after: Vec<(u32, u64)> = tl.events.iter().map(|e| (e.tick, e.ghost_id)).collect();
    assert_eq!(before, after);
    assert_eq!(tl.cursor, 0);
}

#[test]
fn clock_ticks_pause_and_wrap_with_a_restart() {
    let mut tl = ArenaTimeline::new();
    fold(&mut tl, A, &rec((0, 0), &[0]));
    let mut clock = ArenaClock { tick: CYCLE_TICKS - 1, paused: false };
    tl.cursor = 1;
    let wrapped = tick_clock(&mut clock, &mut tl);
    assert!(wrapped);
    assert_eq!(clock.tick, 0);
    assert_eq!(tl.cursor, 0);
    let mut paused = ArenaClock { tick: 5, paused: true };
    assert!(!tick_clock(&mut paused, &mut tl));
    assert_eq!(paused.tick, 5);
    let mut c = ArenaClock { tick: 77, paused: true };
    tl.cursor = 1;
    restart(&mut c, &mut tl);
    assert_eq!((c.tick, c.paused, tl.cursor), (0, false, 0));
}
