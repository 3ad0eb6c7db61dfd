//! The recording state machine: the R-key flow, the countdown, the cycle-full
//! stop, and every modal decision. Exactly one recording is in flight at a
//! time; the arena it records into is the selected hero's. Each function here
//! decides from plain state and returns what the caller must do outside the
//! library (open a modal, snap ghosts, mark a hero as a ghost).

use vstd::prelude::*;

use crate::grid::{clamp_spec, IVec2, TileMover, MAX_COL, MAX_ROW};
use crate::timeline::{
    copy_vec, fold, fold_result, restart, unfold, without_ghost, ArenaClock, ArenaTimeline, Recording,
    RecordingModel, TimelineEvent, COUNTDOWN_TICKS, CYCLE_TICKS, TICKS_PER_SECOND,
};
use crate::versions::{padded_digits, string_from_chars, zero_padded};

verus! {

/// The one in-flight recording. `Countdown` holds the recording arena at tick
/// 0 for three seconds; `Recording` captures until the player commits or
/// discards, or the cycle fills.
#[derive(Clone, Copy, PartialEq, Eq, Debug, Structural)]
pub enum RecordingState {
    Idle,
    Countdown { ticks_left: u32 },
    Recording,
}

impl Default for RecordingState {
    fn default() -> (s: RecordingState)
        ensures
            s == RecordingState::Idle,
    {
        RecordingState::Idle
    }
}

/// The draft staff being captured: empty unless a recording is in flight.
#[derive(Debug)]
pub struct DraftTimeline {
    pub start: IVec2,
    pub events: Vec<TimelineEvent>,
}

impl DraftTimeline {
    /// An empty draft starting at the origin tile.
    pub fn new() -> (d: DraftTimeline)
        ensures
            d.start == (IVec2 { x: 0, y: 0 }),
            d.events@.len() == 0,
    {
        DraftTimeline { start: IVec2 { x: 0, y: 0 }, events: Vec::new() }
    }
}

/// An option a modal can offer.
#[derive(Clone, Copy, PartialEq, Eq, Debug, Structural)]
pub enum Choice {
    /// Start (or restart) a recording for this arena: the countdown begins.
    StartRecording,
    /// Fold the cached recording back into the arena and restart it.
    ReplayPrevious,
    /// Commit the draft (full or partial): cache, fold, become a ghost, restart.
    Commit,
    /// Throw the draft away; the character stays selected, the clock resumes.
    Discard,
    /// Throw the draft away, then perform the edge-walk that interrupted it.
    DiscardAndWalk,
    /// Break a ghost out: unfold its events; the arena keeps playing.
    TakeControl,
    /// Restart the arena at 0:00; every ghost snaps to its start and stays folded.
    RestartArena,
    /// Close the modal and resume.
    Cancel,
}

/// The question a recording flow asks the player.
#[derive(Clone, Copy, PartialEq, Eq, Debug, Structural)]
pub enum Prompt {
    /// A recording is in flight: commit, keep recording, or discard.
    LikeRecording,
    /// The selected hero is a ghost here: record over it?
    RecordOverGhost,
    /// The hero has a cached staff for this arena: record new or replay it.
    ReplaceStaff,
    /// The cycle is full: commit or discard.
    TimesUp,
    /// An arrow pressed on a ghost: break it out of the recording?
    BreakOut,
    /// A step off the arena's edge mid-recording: keep recording, walk out
    /// (discarding the draft), or commit and stay.
    LeaveRecording,
    /// Back in an arena the hero has a staff for: fold it back in?
    ReplayHere,
}

/// The options of a prompt, in display order.
pub open spec fn prompt_options_spec(p: Prompt) -> Seq<Choice> {
    match p {
        Prompt::LikeRecording => seq![Choice::Commit, Choice::Cancel, Choice::Discard],
        Prompt::RecordOverGhost => seq![Choice::StartRecording, Choice::Cancel],
        Prompt::ReplaceStaff => seq![Choice::StartRecording, Choice::ReplayPrevious, Choice::Cancel],
        Prompt::TimesUp => seq![Choice::Commit, Choice::Discard],
        Prompt::BreakOut => seq![Choice::TakeControl, Choice::RestartArena, Choice::Cancel],
        Prompt::LeaveRecording => seq![Choice::Cancel, Choice::DiscardAndWalk, Choice::Commit],
        Prompt::ReplayHere => seq![Choice::ReplayPrevious, Choice::Cancel],
    }
}

/// The option a prompt focuses when it opens.
pub open spec fn prompt_focus_spec(p: Prompt) -> int {
    match p {
        Prompt::LikeRecording => 1,
        Prompt::RecordOverGhost => 1,
        Prompt::ReplaceStaff => 2,
        Prompt::TimesUp => 0,
        Prompt::BreakOut => 2,
        Prompt::LeaveRecording => 0,
        Prompt::ReplayHere => 1,
    }
}

impl Prompt {
    /// The options this prompt offers, in display order.
    pub fn options(self) -> (v: Vec<Choice>)
        ensures
            v@ == prompt_options_spec(self),
    {
        match self {
            Prompt::LikeRecording => vec![Choice::Commit, Choice::Cancel, Choice::Discard],
            Prompt::RecordOverGhost => vec![Choice::StartRecording, Choice::Cancel],
            Prompt::ReplaceStaff => vec![Choice::StartRecording, Choice::ReplayPrevious, Choice::Cancel],
            Prompt::TimesUp => vec![Choice::Commit, Choice::Discard],
            Prompt::BreakOut => vec![Choice::TakeControl, Choice::RestartArena, Choice::Cancel],
            Prompt::LeaveRecording => vec![Choice::Cancel, Choice::DiscardAndWalk, Choice::Commit],
            Prompt::ReplayHere => vec![Choice::ReplayPrevious, Choice::Cancel],
        }
    }

    /// The index of the option focused when the prompt opens.
    pub fn focus(self) -> (i: usize)
        ensures
            i == prompt_focus_spec(self),
            i < prompt_options_spec(self).len(),
    {
        match self {
            Prompt::LikeRecording => 1,
            Prompt::RecordOverGhost => 1,
            Prompt::ReplaceStaff => 2,
            Prompt::TimesUp => 0,
            Prompt::BreakOut => 2,
            Prompt::LeaveRecording => 0,
            Prompt::ReplayHere => 1,
        }
    }
}

// --- The clock readout ----------------------------------------------------------------

/// `m:ss` of a cycle tick.
pub open spec fn clock_text(tick: u32) -> Seq<char> {
    let secs = tick / TICKS_PER_SECOND;
    zero_padded((secs / 60) as nat, 1) + seq![':'] + zero_padded((secs % 60) as nat, 2)
}

/// The characters of [`clock_text`].
pub(crate) fn clock_chars(tick: u32) -> (chars: Vec<char>)
    ensures
        chars@ == clock_text(tick),
{
    let secs = tick / TICKS_PER_SECOND;
    let mut chars = padded_digits(secs / 60, 1);
    chars.push(':');
    let mut tail = padded_digits(secs % 60, 2);
    chars.append(&mut tail);
    chars
}

/// `m:ss` of a cycle tick: the clock format every HUD strip shares.
pub fn fmt_tick(tick: u32) -> (s: String)
    ensures
        s@ == clock_text(tick),
{
    let chars = clock_chars(tick);
    string_from_chars(&chars)
}

/// `mm:ss:cc` of a tick span: minutes, seconds and hundredths, each two
/// digits at least.
pub open spec fn remaining_text(remaining: u32) -> Seq<char> {
    let whole = remaining / TICKS_PER_SECOND;
    let centis = (remaining % TICKS_PER_SECOND) * 100 / TICKS_PER_SECOND as int;
    zero_padded((whole / 60) as nat, 2) + seq![':'] + zero_padded((whole % 60) as nat, 2) + seq![':']
        + zero_padded(centis as nat, 2)
}

/// The record button's countdown of the time left in the cycle.
pub fn fmt_remaining(remaining: u32) -> (s: String)
    ensures
        s@ == remaining_text(remaining),
{
    let whole = remaining / TICKS_PER_SECOND;
    let centis = (remaining % TICKS_PER_SECOND) * 100 / TICKS_PER_SECOND;
    let mut chars = padded_digits(whole / 60, 2);
    chars.push(':');
    chars.append(&mut padded_digits(whole % 60, 2));
    chars.push(':');
    chars.append(&mut padded_digits(centis, 2));
    string_from_chars(&chars)
}

/// The record button's label: `Record` while idle, `Stop` once a recording
/// is armed or running.
pub fn record_label(state: RecordingState) -> (s: &'static str)
    ensures
        s@ == if state is Idle {
            "Record"@
        } else {
            "Stop"@
        },
{
    match state {
        RecordingState::Idle => "Record",
        _ => "Stop",
    }
}

/// The record button's timer: while recording, the time left in the cycle
/// at the recording arena's `tick`; otherwise nothing.
pub fn record_timer(state: RecordingState, tick: u32) -> (s: String)
    ensures
        s@ == if state is Recording {
            remaining_text(if tick < CYCLE_TICKS {
                (CYCLE_TICKS - tick) as u32
            } else {
                0
            })
        } else {
            Seq::empty()
        },
{
    match state {
        RecordingState::Recording => fmt_remaining(CYCLE_TICKS.saturating_sub(tick)),
        _ => string_from_chars(&Vec::new()),
    }
}

/// The seconds left on a countdown, rounded up: what the big countdown digit
/// shows.
pub fn countdown_seconds(ticks_left: u32) -> (s: u32)
    ensures
        s == (ticks_left + TICKS_PER_SECOND - 1) / TICKS_PER_SECOND as int,
{
    ticks_left / TICKS_PER_SECOND + if ticks_left % TICKS_PER_SECOND == 0 {
        0
    } else {
        1
    }
}

// --- Transitions --------------------------------------------------------------------------

/// Holds `clock`/`timeline` at tick 0 (paused) and arms the draft: the
/// three-second countdown begins. Callers snap the arena's other ghosts to
/// their starts.
pub fn arm_countdown(
    clock: &mut ArenaClock,
    timeline: &mut ArenaTimeline,
    draft: &mut DraftTimeline,
    state: &mut RecordingState,
    hero_tile: IVec2,
)
    ensures
        final(clock).tick == 0,
        final(clock).paused,
        final(timeline).cursor == 0,
        final(timeline).events@ == old(timeline).events@,
        final(draft).start == hero_tile,
        final(draft).events@ == Seq::<TimelineEvent>::empty(),
        *final(state) == (RecordingState::Countdown { ticks_left: COUNTDOWN_TICKS }),
{
    clock.tick = 0;
    clock.paused = true;
    timeline.cursor = 0;
    draft.start = hero_tile;
    draft.events.clear();
    *state = RecordingState::Countdown { ticks_left: COUNTDOWN_TICKS };
    assert(draft.events@ =~= Seq::<TimelineEvent>::empty());
}

/// `R`, the context-sensitive record key. With a real choice to make it
/// returns the prompt to open and changes nothing; otherwise it acts: `R`
/// during the countdown aborts it, and a fresh hero/arena pair goes straight
/// to the countdown (the caller then snaps the arena's ghosts).
pub fn handle_r_key(
    state: &mut RecordingState,
    draft: &mut DraftTimeline,
    clock: &mut ArenaClock,
    timeline: &mut ArenaTimeline,
    is_ghost: bool,
    has_cache: bool,
    hero_tile: IVec2,
) -> (prompt: Option<Prompt>)
    ensures
        final(timeline).events@ == old(timeline).events@,
        match *old(state) {
            RecordingState::Countdown { .. } => {
                &&& prompt is None
                &&& *final(state) == RecordingState::Idle
                &&& final(draft).events@.len() == 0
                &&& final(draft).start == old(draft).start
                &&& !final(clock).paused
                &&& final(clock).tick == old(clock).tick
                &&& final(timeline).cursor == old(timeline).cursor
            },
            RecordingState::Recording => {
                &&& prompt == Some(Prompt::LikeRecording)
                &&& *final(state) == *old(state)
                &&& final(draft).events@ == old(draft).events@
                &&& final(draft).start == old(draft).start
                &&& *final(clock) == *old(clock)
                &&& final(timeline).cursor == old(timeline).cursor
            },
            RecordingState::Idle => if is_ghost || has_cache {
                &&& prompt == Some(
                    if is_ghost {
                        Prompt::RecordOverGhost
                    } else {
                        Prompt::ReplaceStaff
                    },
                )
                &&& *final(state) == *old(state)
                &&& final(draft).events@ == old(draft).events@
                &&& final(draft).start == old(draft).start
                &&& *final(clock) == *old(clock)
                &&& final(timeline).cursor == old(timeline).cursor
            } else {
                &&& prompt is None
                &&& *final(state) == (RecordingState::Countdown { ticks_left: COUNTDOWN_TICKS })
                &&& final(draft).start == hero_tile
                &&& final(draft).events@.len() == 0
                &&& final(clock).tick == 0
                &&& final(clock).paused
                &&& final(timeline).cursor == 0
            },
        },
{
    match *state {
        RecordingState::Countdown { .. } => {
            *state = RecordingState::Idle;
            draft.events.clear();
            clock.paused = false;
            None
        },
        RecordingState::Recording => Some(Prompt::LikeRecording),
        RecordingState::Idle => {
            if is_ghost {
                Some(Prompt::RecordOverGhost)
            } else if has_cache {
                Some(Prompt::ReplaceStaff)
            } else {
                arm_countdown(clock, timeline, draft, state, hero_tile);
                None
            }
        },
    }
}

/// The events a hero's pressed slot keys (`2`, `3`, `4`, flagged in
/// `pressed` in that order) add at `tick`.
pub open spec fn intents(tick: u32, pressed: Seq<bool>, n: int) -> Seq<TimelineEvent>
    decreases n,
{
    if n <= 0 {
        Seq::empty()
    } else {
        let before = intents(tick, pressed, n - 1);
        if pressed[n - 1] {
            before.push(
                TimelineEvent {
                    tick,
                    action: crate::timeline::Action::Ability { slot: (n + 1) as u8, aim: None },
                },
            )
        } else {
            before
        }
    }
}

/// Mirrors a hero's pressed ability slots 2-4 into the draft, stamped with
/// the recording arena's tick. A possessed boss records its casts where it
/// performs them, so nothing is captured for one here.
pub fn capture_intent(draft: &mut DraftTimeline, is_boss: bool, tick: u32, pressed: [bool; 3])
    ensures
        final(draft).start == old(draft).start,
        final(draft).events@ == old(draft).events@ + if is_boss {
            Seq::empty()
        } else {
            intents(tick, pressed@, 3)
        },
{
    if is_boss {
        assert(old(draft).events@ + Seq::<TimelineEvent>::empty() =~= old(draft).events@);
        return;
    }
    let ghost base = draft.events@;
    let mut i: usize = 0;
    while i < 3
        invariant
            i <= 3,
            draft.start == old(draft).start,
            draft.events@ == base + intents(tick, pressed@, i as int),
        decreases 3 - i,
    {
        if pressed[i] {
            let slot: u8 = (i + 2) as u8;
            draft.events.push(
                TimelineEvent { tick, action: crate::timeline::Action::Ability { slot, aim: None } },
            );
        }
        i = i + 1;
    }
}

/// A live Holy Nova (slot `1`) lands in the draft in the same step as its
/// effect, stamped with the recording arena's tick, but only while recording:
/// idle or counting down, the cast is rehearsal and nothing is captured.
pub fn record_holy_nova(draft: &mut DraftTimeline, state: RecordingState, tick: u32)
    ensures
        final(draft).start == old(draft).start,
        final(draft).events@ == if state is Recording {
            old(draft).events@.push(
                TimelineEvent { tick, action: crate::timeline::Action::Ability { slot: 1, aim: None } },
            )
        } else {
            old(draft).events@
        },
{
    if let RecordingState::Recording = state {
        draft.events.push(
            TimelineEvent { tick, action: crate::timeline::Action::Ability { slot: 1, aim: None } },
        );
    }
}

/// Counts the three-second countdown down; at zero the recording arena's
/// clock is released and capture begins. Outside a countdown nothing changes.
pub fn tick_countdown(state: &mut RecordingState, clock: &mut ArenaClock)
    requires
        *old(state) != (RecordingState::Countdown { ticks_left: 0 }),
    ensures
        match *old(state) {
            RecordingState::Countdown { ticks_left } => if ticks_left == 1 {
                &&& *final(state) == RecordingState::Recording
                &&& !final(clock).paused
                &&& final(clock).tick == old(clock).tick
            } else {
                &&& *final(state) == (RecordingState::Countdown { ticks_left: (ticks_left - 1) as u32 })
                &&& *final(clock) == *old(clock)
            },
            _ => *final(state) == *old(state) && *final(clock) == *old(clock),
        },
{
    match *state {
        RecordingState::Countdown { ticks_left } => {
            let left = ticks_left - 1;
            if left == 0 {
                clock.paused = false;
                *state = RecordingState::Recording;
            } else {
                *state = RecordingState::Countdown { ticks_left: left };
            }
        },
        _ => {},
    }
}

/// When the recording arena's clock reaches the last tick of the cycle, the
/// two-minute staff is full: ask to commit or discard.
pub fn auto_stop(clock: &ArenaClock) -> (prompt: Option<Prompt>)
    ensures
        prompt == (if clock.tick < CYCLE_TICKS - 1 {
            None
        } else {
            Some(Prompt::TimesUp)
        }),
{
    if clock.tick < CYCLE_TICKS - 1 {
        None
    } else {
        Some(Prompt::TimesUp)
    }
}

/// Takes a modal choice if the modal is still open (`latch` set), closing it.
/// A mashed press that lands after the modal closed is dropped (`None`).
/// Otherwise the result says whether a stashed edge-walk is dropped: every
/// choice but "discard and walk" drops it.
pub fn accept_choice(latch: &mut bool, choice: Choice) -> (clear_walk: Option<bool>)
    ensures
        !*final(latch),
        clear_walk == (if *old(latch) {
            Some(choice != Choice::DiscardAndWalk)
        } else {
            None
        }),
{
    if !*latch {
        return None;
    }
    *latch = false;
    Some(choice != Choice::DiscardAndWalk)
}

/// How a choice changes the hero's ghost marker.
#[derive(Clone, Copy, PartialEq, Eq, Debug, Structural)]
pub enum GhostChange {
    /// The marker stays as it is.
    Keep,
    /// The hero is (again) a ghost replaying from `start`.
    Become(IVec2),
    /// The hero is no longer a ghost.
    Release,
}

/// What the caller does after a choice is applied.
pub struct ChoiceEffects {
    /// The recording to cache in the hero's library for this arena and to
    /// announce as committed.
    pub store: Option<Recording>,
    pub marker: GhostChange,
    /// Snap the arena's ghosts to their starts.
    pub snap_ghosts: bool,
    /// While snapping, skip the hero (it is posed here).
    pub skip_hero: bool,
}

/// The hero sits on the start tile of `r`, clamped to the board.
pub open spec fn posed_at(m: TileMover, start: IVec2) -> bool {
    &&& m.col == clamp_spec(start.x as int, 0, MAX_COL as int)
    &&& m.row == clamp_spec(start.y as int, 0, MAX_ROW as int)
}

/// The outcome of applying a choice, over the models of every piece of state.
pub open spec fn choice_applied(
    choice: Choice,
    s0: RecordingState,
    draft0: RecordingModel,
    c0: ArenaClock,
    ev0: Seq<crate::timeline::GhostEvent>,
    cur0: usize,
    hero: u64,
    hero_is_ghost: bool,
    cached: Option<RecordingModel>,
    hero_tile: IVec2,
    m0: TileMover,
    s1: RecordingState,
    draft1: RecordingModel,
    c1: ArenaClock,
    ev1: Seq<crate::timeline::GhostEvent>,
    cur1: usize,
    m1: TileMover,
    fx: (Option<RecordingModel>, GhostChange, bool, bool),
) -> bool {
    match choice {
        Choice::Cancel => {
            &&& s1 == s0 && draft1 == draft0 && m1 == m0
            &&& c1 == ArenaClock { paused: false, ..c0 }
            &&& ev1 == ev0 && cur1 == cur0
            &&& fx == (None::<RecordingModel>, GhostChange::Keep, false, false)
        },
        Choice::Discard | Choice::DiscardAndWalk => {
            &&& s1 == RecordingState::Idle
            &&& draft1 == RecordingModel { start: draft0.start, events: Seq::empty() }
            &&& m1 == m0
            &&& c1 == ArenaClock { paused: false, ..c0 }
            &&& ev1 == ev0 && cur1 == cur0
            &&& fx == (None::<RecordingModel>, GhostChange::Keep, false, false)
        },
        Choice::Commit => {
            &&& s1 == RecordingState::Idle
            &&& draft1 == RecordingModel { start: draft0.start, events: Seq::empty() }
            &&& ev1 == fold_result(ev0, hero, draft0.events)
            &&& cur1 == 0
            &&& c1 == ArenaClock { tick: 0, paused: false }
            &&& posed_at(m1, draft0.start)
            &&& fx == (Some(draft0), GhostChange::Become(draft0.start), true, false)
        },
        Choice::ReplayPrevious => match cached {
            Some(r) => {
                &&& s1 == s0 && draft1 == draft0
                &&& ev1 == fold_result(ev0, hero, r.events)
                &&& cur1 == 0
                &&& c1 == ArenaClock { tick: 0, paused: false }
                &&& posed_at(m1, r.start)
                &&& fx == (None::<RecordingModel>, GhostChange::Become(r.start), true, false)
            },
            None => {
                &&& s1 == s0 && draft1 == draft0 && m1 == m0
                &&& c1 == ArenaClock { paused: false, ..c0 }
                &&& ev1 == ev0 && cur1 == cur0
                &&& fx == (None::<RecordingModel>, GhostChange::Keep, false, false)
            },
        },
        Choice::StartRecording => {
            &&& s1 == (RecordingState::Countdown { ticks_left: COUNTDOWN_TICKS })
            &&& draft1 == RecordingModel { start: hero_tile, events: Seq::empty() }
            &&& m1 == m0
            &&& c1 == ArenaClock { tick: 0, paused: true }
            &&& cur1 == 0
            &&& ev1 == (if hero_is_ghost {
                without_ghost(ev0, hero)
            } else {
                ev0
            })
            &&& fx == (None::<RecordingModel>, if hero_is_ghost {
                GhostChange::Release
            } else {
                GhostChange::Keep
            }, true, true)
        },
        Choice::TakeControl => {
            &&& s1 == s0 && draft1 == draft0 && m1 == m0
            &&& ev1 == without_ghost(ev0, hero)
            &&& c1 == ArenaClock { paused: false, ..c0 }
            &&& fx == (None::<RecordingModel>, GhostChange::Release, false, false)
        },
        Choice::RestartArena => {
            &&& s1 == s0 && draft1 == draft0 && m1 == m0
            &&& ev1 == ev0
            &&& cur1 == 0
            &&& c1 == ArenaClock { tick: 0, paused: false }
            &&& fx == (None::<RecordingModel>, GhostChange::Keep, true, false)
        },
    }
}

pub open spec fn draft_view(d: DraftTimeline) -> RecordingModel {
    RecordingModel { start: d.start, events: d.events@ }
}

pub open spec fn effects_view(fx: ChoiceEffects) -> (Option<RecordingModel>, GhostChange, bool, bool) {
    (
        match fx.store {
            Some(r) => Some(r@),
            None => None,
        },
        fx.marker,
        fx.snap_ghosts,
        fx.skip_hero,
    )
}

/// Applies an accepted choice to the selected hero's arena: the one place
/// recording transitions happen, so each is explicit. `hero` names the hero
/// in the arena's timeline; `cached` is its library entry for this arena.
pub fn apply_choice(
    choice: Choice,
    state: &mut RecordingState,
    draft: &mut DraftTimeline,
    clock: &mut ArenaClock,
    timeline: &mut ArenaTimeline,
    hero: u64,
    hero_is_ghost: bool,
    cached: Option<&Recording>,
    hero_tile: IVec2,
    mover: &mut TileMover,
) -> (fx: ChoiceEffects)
    ensures
        choice_applied(
            choice,
            *old(state),
            draft_view(*old(draft)),
            *old(clock),
            old(timeline).events@,
            old(timeline).cursor,
            hero,
            hero_is_ghost,
            match cached {
                Some(r) => Some(r@),
                None => None,
            },
            hero_tile,
            *old(mover),
            *final(state),
            draft_view(*final(draft)),
            *final(clock),
            final(timeline).events@,
            final(timeline).cursor,
            *final(mover),
            effects_view(fx),
        ),
{
    let keep = ChoiceEffects { store: None, marker: GhostChange::Keep, snap_ghosts: false, skip_hero: false };
    match choice {
        Choice::Cancel => {
            clock.paused = false;
            keep
        },
        Choice::Discard | Choice::DiscardAndWalk => {
            *state = RecordingState::Idle;
            draft.events.clear();
            clock.paused = false;
            keep
        },
        Choice::Commit => {
            *state = RecordingState::Idle;
            let events = copy_vec(&draft.events);
            draft.events.clear();
            let recording = Recording { start: draft.start, events };
            fold(timeline, hero, &recording);
            restart(clock, timeline);
            mover.snap_to(recording.start.x, recording.start.y);
            let start = recording.start;
            ChoiceEffects {
                store: Some(recording),
                marker: GhostChange::Become(start),
                snap_ghosts: true,
                skip_hero: false,
            }
        },
        Choice::ReplayPrevious => match cached {
            Some(recording) => {
                fold(timeline, hero, recording);
                restart(clock, timeline);
                mover.snap_to(recording.start.x, recording.start.y);
                ChoiceEffects {
                    store: None,
                    marker: GhostChange::Become(recording.start),
                    snap_ghosts: true,
                    skip_hero: false,
                }
            },
            None => {
                clock.paused = false;
                keep
            },
        },
        Choice::StartRecording => {
            if hero_is_ghost {
                unfold(timeline, hero, clock.tick);
            }
            arm_countdown(clock, timeline, draft, state, hero_tile);
            ChoiceEffects {
                store: None,
                marker: if hero_is_ghost {
                    GhostChange::Release
                } else {
                    GhostChange::Keep
                },
                snap_ghosts: true,
                skip_hero: true,
            }
        },
        Choice::TakeControl => {
            unfold(timeline, hero, clock.tick);
            clock.paused = false;
            ChoiceEffects { store: None, marker: GhostChange::Release, snap_ghosts: false, skip_hero: false }
        },
        Choice::RestartArena => {
            restart(clock, timeline);
            ChoiceEffects { store: None, marker: GhostChange::Keep, snap_ghosts: true, skip_hero: false }
        },
    }
}

} // verus!
