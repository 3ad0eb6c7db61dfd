//! Record & replay timelines — the "sheet music" system.
//!
//! Every character can record a two-minute stream of intent events per arena
//! (a [`Recording`], its staff); committing folds the staff into the arena's
//! single master [`ArenaTimeline`] (the score), which drives every folded ghost_id
//! as the arena's independent [`ArenaClock`] ticks. The sim counts ticks, never
//! seconds; events store intent (tile steps and ability slots).
//!
//! A ghost_id is identified by a `u64` id (the id of the entity it drives).

use vstd::prelude::*;

use crate::grid::IVec2;

verus! {

/// Sim ticks per second.
pub const TICKS_PER_SECOND: u32 = 60;

/// Ticks in one two-minute arena cycle.
pub const CYCLE_TICKS: u32 = 7200;

/// Ticks in the three-second pre-recording countdown.
pub const COUNTDOWN_TICKS: u32 = 180;

/// A recordable intent: a tile step, or an ability slot (`1..=4`) with the
/// optional tile-space direction of a directed cast.
#[derive(Clone, Copy, PartialEq, Eq, Debug, Structural)]
pub enum Action {
    Move(IVec2),
    Ability { slot: u8, aim: Option<IVec2> },
}

/// One recorded intent: what the player pressed, on which tick of the cycle.
#[derive(Clone, Copy, PartialEq, Eq, Debug, Structural)]
pub struct TimelineEvent {
    pub tick: u32,
    pub action: Action,
}

/// One character's committed staff for one arena: the tile it stood on at
/// tick 0 plus its tick-stamped events. A partial commit is simply a shorter
/// event list; the ghost_id plays it, then idles.
#[derive(Clone, PartialEq, Eq, Debug)]
pub struct Recording {
    pub start: IVec2,
    pub events: Vec<TimelineEvent>,
}

/// The mathematical content of a recording.
#[verifier::ext_equal]
pub struct RecordingModel {
    pub start: IVec2,
    pub events: Seq<TimelineEvent>,
}

impl View for Recording {
    type V = RecordingModel;

    open spec fn view(&self) -> RecordingModel {
        RecordingModel { start: self.start, events: self.events@ }
    }
}

/// A copy of a sequence of plain (copyable) values.
pub fn copy_vec<T: Copy>(v: &Vec<T>) -> (r: Vec<T>)
    ensures
        r@ == v@,
{
    let mut r: Vec<T> = Vec::new();
    let mut i: usize = 0;
    while i < v.len()
        invariant
            i <= v@.len(),
            r@ == v@.subrange(0, i as int),
        decreases v@.len() - i,
    {
        r.push(v[i]);
        proof {
            assert(v@.subrange(0, i + 1) =~= v@.subrange(0, i as int).push(v@[i as int]));
        }
        i = i + 1;
    }
    proof {
        assert(v@.subrange(0, v@.len() as int) =~= v@);
    }
    r
}

impl Recording {
    /// A copy of this recording.
    pub fn copy(&self) -> (r: Recording)
        ensures
            r@ == self@,
    {
        Recording { start: self.start, events: copy_vec(&self.events) }
    }
}

/// One event of the master timeline: a [`TimelineEvent`] tagged with the
/// ghost_id it drives.
#[derive(Clone, Copy, PartialEq, Eq, Debug, Structural)]
pub struct GhostEvent {
    pub tick: u32,
    pub ghost_id: u64,
    pub action: Action,
}

/// An arena's master timeline: every committed recording tagged with its
/// ghost_id and merged into one tick-sorted stream, plus the playback cursor.
#[derive(Debug)]
pub struct ArenaTimeline {
    pub events: Vec<GhostEvent>,
    pub cursor: usize,
}

/// An arena's independent two-minute clock, in ticks (`0..CYCLE_TICKS`).
#[derive(Clone, Copy, PartialEq, Eq, Debug, Structural)]
pub struct ArenaClock {
    pub tick: u32,
    pub paused: bool,
}

impl ArenaTimeline {
    /// An empty timeline with its cursor at the top.
    pub fn new() -> (t: ArenaTimeline)
        ensures
            t.events@ == Seq::<GhostEvent>::empty(),
            t.cursor == 0,
    {
        ArenaTimeline { events: Vec::new(), cursor: 0 }
    }
}

impl ArenaClock {
    /// A running clock at tick 0.
    pub fn new() -> (c: ArenaClock)
        ensures
            c.tick == 0,
            !c.paused,
    {
        ArenaClock { tick: 0, paused: false }
    }
}

// --- The model ----------------------------------------------------------------

/// The events of `s` stamped with tick `t`, in their order in `s`.
pub open spec fn at_tick(s: Seq<GhostEvent>, t: u32) -> Seq<GhostEvent>
    decreases s.len(),
{
    if s.len() == 0 {
        Seq::empty()
    } else {
        let rest = at_tick(s.drop_last(), t);
        if s.last().tick == t {
            rest.push(s.last())
        } else {
            rest
        }
    }
}

/// The events of `s` that do not drive `ghost_id`, in their order in `s`.
pub open spec fn without_ghost(s: Seq<GhostEvent>, ghost_id: u64) -> Seq<GhostEvent>
    decreases s.len(),
{
    if s.len() == 0 {
        Seq::empty()
    } else {
        let rest = without_ghost(s.drop_last(), ghost_id);
        if s.last().ghost_id != ghost_id {
            rest.push(s.last())
        } else {
            rest
        }
    }
}

/// A recording's events tagged with the ghost_id they drive.
pub open spec fn tagged(events: Seq<TimelineEvent>, ghost_id: u64) -> Seq<GhostEvent> {
    Seq::new(
        events.len(),
        |i: int| GhostEvent { tick: events[i].tick, ghost_id, action: events[i].action },
    )
}

/// `s` is sorted by tick (non-decreasing).
pub open spec fn tick_sorted(s: Seq<GhostEvent>) -> bool {
    forall|i: int, j: int| 0 <= i <= j < s.len() ==> s[i].tick <= s[j].tick
}

/// `r` is the stable sort of `s` by tick: sorted, and at every tick it holds
/// exactly the events of `s` at that tick in the order they had. (These two
/// facts determine `r` uniquely; see [`lemma_stable_sort_unique`].)
pub open spec fn stable_sort_of(r: Seq<GhostEvent>, s: Seq<GhostEvent>) -> bool {
    &&& tick_sorted(r)
    &&& forall|t: u32| #[trigger] at_tick(r, t) == at_tick(s, t)
}

/// The master-timeline events after folding `recording` in for `ghost_id`: the
/// ghost's previous events removed, the recording's appended, all stably
/// sorted by tick.
pub open spec fn folded(
    events: Seq<GhostEvent>,
    ghost_id: u64,
    recording: Seq<TimelineEvent>,
) -> Seq<GhostEvent> {
    without_ghost(events, ghost_id) + tagged(recording, ghost_id)
}

/// The master timeline after folding `recording` in for `ghost_id`: the
/// stable sort by tick of [`folded`] (unique, see [`lemma_stable_sort_unique`]).
pub open spec fn fold_result(events: Seq<GhostEvent>, ghost_id: u64, recording: Seq<TimelineEvent>) -> Seq<
    GhostEvent,
> {
    choose|r: Seq<GhostEvent>| stable_sort_of(r, folded(events, ghost_id, recording))
}

/// The index of the first event of `s`, at or after `from`, whose tick is at
/// least `t` (or `s.len()` if none) — where a cursor resumes for tick `t`.
pub open spec fn first_at_or_after(s: Seq<GhostEvent>, t: u32) -> int {
    first_at_or_after_from(s, t, 0)
}

pub open spec fn first_at_or_after_from(s: Seq<GhostEvent>, t: u32, from: int) -> int
    decreases s.len() - from,
{
    if from >= s.len() || from < 0 {
        s.len() as int
    } else if s[from].tick >= t {
        from
    } else {
        first_at_or_after_from(s, t, from + 1)
    }
}

/// The index of the first event of `s` whose tick is past `t` (or `s.len()`)
/// — the end of the window of events already played at tick `t`.
pub open spec fn first_after(s: Seq<GhostEvent>, t: u32) -> int {
    first_after_from(s, t, 0)
}

pub open spec fn first_after_from(s: Seq<GhostEvent>, t: u32, from: int) -> int
    decreases s.len() - from,
{
    if from >= s.len() || from < 0 {
        s.len() as int
    } else if s[from].tick > t {
        from
    } else {
        first_after_from(s, t, from + 1)
    }
}

/// The next clock value after one tick — wraps at the cycle boundary.
pub open spec fn advance_spec(tick: u32) -> u32 {
    ((tick + 1) % (CYCLE_TICKS as int)) as u32
}

// --- Lemmas -------------------------------------------------------------------

pub proof fn lemma_at_tick_concat(a: Seq<GhostEvent>, b: Seq<GhostEvent>, t: u32)
    ensures
        at_tick(a + b, t) == at_tick(a, t) + at_tick(b, t),
    decreases b.len(),
{
    if b.len() == 0 {
        assert(a + b == a);
        assert(at_tick(b, t) == Seq::<GhostEvent>::empty());
        assert(at_tick(a, t) + at_tick(b, t) == at_tick(a, t));
    } else {
        lemma_at_tick_concat(a, b.drop_last(), t);
        assert((a + b).drop_last() == a + b.drop_last());
        assert((a + b).last() == b.last());
    }
}

pub proof fn lemma_without_ghost_concat(a: Seq<GhostEvent>, b: Seq<GhostEvent>, g: u64)
    ensures
        without_ghost(a + b, g) == without_ghost(a, g) + without_ghost(b, g),
    decreases b.len(),
{
    if b.len() == 0 {
        assert(a + b == a);
        assert(without_ghost(a, g) + without_ghost(b, g) == without_ghost(a, g));
    } else {
        lemma_without_ghost_concat(a, b.drop_last(), g);
        assert((a + b).drop_last() == a + b.drop_last());
        assert((a + b).last() == b.last());
    }
}

/// Every event of `at_tick(s, t)` is stamped `t` and occurs in `s`; this
/// returns where.
pub proof fn lemma_at_tick_member(s: Seq<GhostEvent>, t: u32, i: int) -> (j: int)
    requires
        0 <= i < at_tick(s, t).len(),
    ensures
        at_tick(s, t)[i].tick == t,
        0 <= j < s.len(),
        s[j] == at_tick(s, t)[i],
    decreases s.len(),
{
    let r = at_tick(s.drop_last(), t);
    if i < r.len() {
        let j = lemma_at_tick_member(s.drop_last(), t, i);
        assert(s[j] == s.drop_last()[j]);
        j
    } else {
        s.len() - 1
    }
}

/// A sequence with no event stamped `t` has nothing at tick `t`.
pub proof fn lemma_at_tick_none(s: Seq<GhostEvent>, t: u32)
    requires
        forall|i: int| 0 <= i < s.len() ==> s[i].tick != t,
    ensures
        at_tick(s, t) == Seq::<GhostEvent>::empty(),
    decreases s.len(),
{
    if s.len() > 0 {
        lemma_at_tick_none(s.drop_last(), t);
    }
}

/// An event of `s` stamped `t` shows up in `at_tick(s, t)`.
pub proof fn lemma_at_tick_nonempty(s: Seq<GhostEvent>, i: int)
    requires
        0 <= i < s.len(),
    ensures
        at_tick(s, s[i].tick).len() > 0,
    decreases s.len(),
{
    if i < s.len() - 1 {
        lemma_at_tick_nonempty(s.drop_last(), i);
        assert(s.drop_last()[i] == s[i]);
    }
}

pub proof fn lemma_at_tick_of_tagged_all(events: Seq<TimelineEvent>, g: u64)
    ensures
        without_ghost(tagged(events, g), g) == Seq::<GhostEvent>::empty(),
    decreases events.len(),
{
    if events.len() > 0 {
        lemma_at_tick_of_tagged_all(events.drop_last(), g);
        assert(tagged(events, g).drop_last() == tagged(events.drop_last(), g));
    }
}

/// Removing a ghost's events twice removes nothing more.
pub proof fn lemma_without_ghost_idempotent(s: Seq<GhostEvent>, g: u64)
    ensures
        without_ghost(without_ghost(s, g), g) == without_ghost(s, g),
    decreases s.len(),
{
    if s.len() > 0 {
        lemma_without_ghost_idempotent(s.drop_last(), g);
        let r = without_ghost(s.drop_last(), g);
        if s.last().ghost_id != g {
            assert(r.push(s.last()).drop_last() == r);
        }
    }
}

/// Filtering by tick and by ghost_id commute.
pub proof fn lemma_at_tick_without_ghost(s: Seq<GhostEvent>, t: u32, g: u64)
    ensures
        at_tick(without_ghost(s, g), t) == without_ghost(at_tick(s, t), g),
    decreases s.len(),
{
    if s.len() > 0 {
        lemma_at_tick_without_ghost(s.drop_last(), t, g);
        let w = without_ghost(s.drop_last(), g);
        let a = at_tick(s.drop_last(), t);
        if s.last().ghost_id != g {
            assert(w.push(s.last()).drop_last() == w);
        }
        if s.last().tick == t {
            assert(a.push(s.last()).drop_last() == a);
        }
    }
}

/// A sorted sequence ends in its largest tick.
pub proof fn lemma_sorted_last_is_max(s: Seq<GhostEvent>, i: int)
    requires
        tick_sorted(s),
        0 <= i < s.len(),
    ensures
        s[i].tick <= s.last().tick,
{
}

/// Dropping the last event of `s` changes only its own tick's slice.
pub proof fn lemma_at_tick_drop_last(s: Seq<GhostEvent>, t: u32)
    requires
        s.len() > 0,
    ensures
        s.last().tick == t ==> at_tick(s.drop_last(), t) == at_tick(s, t).drop_last(),
        s.last().tick != t ==> at_tick(s.drop_last(), t) == at_tick(s, t),
{
    if s.last().tick == t {
        let r = at_tick(s.drop_last(), t);
        assert(r.push(s.last()).drop_last() == r);
    }
}

/// A stable sort is unique: two tick-sorted sequences that agree at every
/// tick are equal.
pub proof fn lemma_stable_sort_unique(r1: Seq<GhostEvent>, r2: Seq<GhostEvent>)
    requires
        tick_sorted(r1),
        tick_sorted(r2),
        forall|t: u32| #[trigger] at_tick(r1, t) == at_tick(r2, t),
    ensures
        r1 == r2,
    decreases r1.len() + r2.len(),
{
    if r1.len() == 0 && r2.len() == 0 {
        assert(r1 =~= r2);
    } else if r1.len() == 0 {
        lemma_at_tick_nonempty(r2, r2.len() - 1);
        assert(at_tick(r1, r2.last().tick) == at_tick(r2, r2.last().tick));
    } else if r2.len() == 0 {
        lemma_at_tick_nonempty(r1, r1.len() - 1);
        assert(at_tick(r1, r1.last().tick) == at_tick(r2, r1.last().tick));
    } else {
        let m1 = r1.last().tick;
        let m2 = r2.last().tick;
        // r2 holds an event at m1, so m1 <= m2; symmetrically m2 <= m1.
        lemma_at_tick_nonempty(r1, r1.len() - 1);
        assert(at_tick(r1, m1) == at_tick(r2, m1));
        let j2 = lemma_at_tick_member(r2, m1, 0);
        lemma_sorted_last_is_max(r2, j2);
        lemma_at_tick_nonempty(r2, r2.len() - 1);
        assert(at_tick(r1, m2) == at_tick(r2, m2));
        let j1 = lemma_at_tick_member(r1, m2, 0);
        lemma_sorted_last_is_max(r1, j1);
        assert(m1 == m2);
        // The last elements are the last of the shared tick's slice.
        assert(at_tick(r1, m1).last() == r1.last());
        assert(at_tick(r2, m1).last() == r2.last());
        assert(r1.last() == r2.last());
        assert forall|t: u32| #[trigger]
            at_tick(r1.drop_last(), t) == at_tick(r2.drop_last(), t) by {
            lemma_at_tick_drop_last(r1, t);
            lemma_at_tick_drop_last(r2, t);
            assert(at_tick(r1, t) == at_tick(r2, t));
        }
        lemma_stable_sort_unique(r1.drop_last(), r2.drop_last());
        assert(r1 =~= r1.drop_last().push(r1.last()));
        assert(r2 =~= r2.drop_last().push(r2.last()));
    }
}

pub proof fn lemma_first_after_from(s: Seq<GhostEvent>, t: u32, from: int)
    requires
        0 <= from <= s.len(),
    ensures
        from <= first_after_from(s, t, from) <= s.len(),
        forall|i: int| from <= i < first_after_from(s, t, from) ==> s[i].tick <= t,
        first_after_from(s, t, from) < s.len() ==> s[first_after_from(s, t, from)].tick > t,
    decreases s.len() - from,
{
    if from < s.len() && s[from].tick <= t {
        lemma_first_after_from(s, t, from + 1);
    }
}

pub proof fn lemma_first_at_or_after_from(s: Seq<GhostEvent>, t: u32, from: int)
    requires
        0 <= from <= s.len(),
    ensures
        from <= first_at_or_after_from(s, t, from) <= s.len(),
        forall|i: int| from <= i < first_at_or_after_from(s, t, from) ==> s[i].tick < t,
        first_at_or_after_from(s, t, from) < s.len() ==> s[first_at_or_after_from(
            s,
            t,
            from,
        )].tick >= t,
    decreases s.len() - from,
{
    if from < s.len() && s[from].tick < t {
        lemma_first_at_or_after_from(s, t, from + 1);
    }
}

/// A sequence without any event of `g` is left alone by removing `g`.
pub proof fn lemma_without_absent_ghost(s: Seq<GhostEvent>, g: u64)
    requires
        forall|i: int| 0 <= i < s.len() ==> s[i].ghost_id != g,
    ensures
        without_ghost(s, g) == s,
    decreases s.len(),
{
    if s.len() > 0 {
        lemma_without_absent_ghost(s.drop_last(), g);
        assert(s.drop_last().push(s.last()) =~= s);
    }
}

/// `without_ghost(s, g)` holds no event of `g`, and each of its events comes
/// from `s` in order (an order-preserving embedding), so it stays sorted.
pub proof fn lemma_without_ghost_props(s: Seq<GhostEvent>, g: u64)
    ensures
        forall|i: int|
            0 <= i < without_ghost(s, g).len() ==> #[trigger] without_ghost(s, g)[i].ghost_id != g,
        tick_sorted(s) ==> tick_sorted(without_ghost(s, g)),
        tick_sorted(s) && without_ghost(s, g).len() > 0 && s.len() > 0 ==> without_ghost(
            s,
            g,
        ).last().tick <= s.last().tick,
    decreases s.len(),
{
    if s.len() > 0 {
        lemma_without_ghost_props(s.drop_last(), g);
        let r = without_ghost(s.drop_last(), g);
        if tick_sorted(s) {
            assert(tick_sorted(s.drop_last()));
            if r.len() > 0 {
                assert(r.last().tick <= s.drop_last().last().tick);
                assert(s.drop_last().last() == s[s.len() - 2]);
            }
            if s.last().ghost_id != g {
                let w = r.push(s.last());
                assert forall|i: int, j: int| 0 <= i <= j < w.len() implies w[i].tick
                    <= w[j].tick by {
                    if j == w.len() - 1 && i < j {
                        assert(w[i].tick <= r.last().tick);
                    }
                }
            }
        }
    }
}

/// Every event of a tagged recording drives its ghost.
pub proof fn lemma_tagged_only_ghost(events: Seq<TimelineEvent>, g: u64, t: u32)
    ensures
        without_ghost(at_tick(tagged(events, g), t), g) == Seq::<GhostEvent>::empty(),
{
    let s = at_tick(tagged(events, g), t);
    assert forall|i: int| 0 <= i < s.len() implies s[i].ghost_id == g by {
        let j = lemma_at_tick_member(tagged(events, g), t, i);
    }
    lemma_without_only_ghost(s, g);
}

pub proof fn lemma_without_only_ghost(s: Seq<GhostEvent>, g: u64)
    requires
        forall|i: int| 0 <= i < s.len() ==> s[i].ghost_id == g,
    ensures
        without_ghost(s, g) == Seq::<GhostEvent>::empty(),
    decreases s.len(),
{
    if s.len() > 0 {
        lemma_without_only_ghost(s.drop_last(), g);
    }
}

/// Folding the same recording in for the same ghost again changes nothing:
/// re-committing is idempotent.
pub proof fn law_refold_is_idempotent(
    events: Seq<GhostEvent>,
    g: u64,
    recording: Seq<TimelineEvent>,
    once: Seq<GhostEvent>,
    twice: Seq<GhostEvent>,
)
    requires
        stable_sort_of(once, folded(events, g, recording)),
        stable_sort_of(twice, folded(once, g, recording)),
    ensures
        twice == once,
{
    let w = without_ghost(events, g);
    let tg = tagged(recording, g);
    lemma_without_ghost_props(events, g);
    assert forall|t: u32| #[trigger] at_tick(twice, t) == at_tick(once, t) by {
        lemma_at_tick_concat(without_ghost(once, g), tg, t);
        lemma_at_tick_concat(w, tg, t);
        lemma_at_tick_without_ghost(once, t, g);
        assert(at_tick(once, t) == at_tick(w, t) + at_tick(tg, t));
        lemma_without_ghost_concat(at_tick(w, t), at_tick(tg, t), g);
        lemma_tagged_only_ghost(recording, g, t);
        lemma_at_tick_without_ghost(events, t, g);
        lemma_without_ghost_idempotent(at_tick(events, t), g);
        assert(without_ghost(at_tick(w, t), g) == at_tick(w, t));
        assert(without_ghost(at_tick(once, t), g) =~= at_tick(w, t));
    }
    lemma_stable_sort_unique(twice, once);
}

/// Unfolding a ghost right after folding it in gives back exactly the other
/// ghosts' events: unfold undoes fold.
pub proof fn law_unfold_undoes_fold(
    events: Seq<GhostEvent>,
    g: u64,
    recording: Seq<TimelineEvent>,
    once: Seq<GhostEvent>,
)
    requires
        tick_sorted(events),
        stable_sort_of(once, folded(events, g, recording)),
    ensures
        without_ghost(once, g) == without_ghost(events, g),
{
    let w = without_ghost(events, g);
    let tg = tagged(recording, g);
    lemma_without_ghost_props(events, g);
    lemma_without_ghost_props(once, g);
    assert forall|t: u32| #[trigger] at_tick(without_ghost(once, g), t) == at_tick(w, t) by {
        lemma_at_tick_concat(w, tg, t);
        lemma_at_tick_without_ghost(once, t, g);
        lemma_without_ghost_concat(at_tick(w, t), at_tick(tg, t), g);
        lemma_tagged_only_ghost(recording, g, t);
        lemma_at_tick_without_ghost(events, t, g);
        lemma_without_ghost_idempotent(at_tick(events, t), g);
        assert(without_ghost(at_tick(once, t), g) =~= at_tick(w, t));
    }
    lemma_stable_sort_unique(without_ghost(once, g), w);
}

// --- Operations ---------------------------------------------------------------

/// Inserts `e` into tick-sorted `v` after every event stamped at or before
/// its tick, keeping `v` sorted and `e` last among its tick.
fn insert_stable(v: &mut Vec<GhostEvent>, e: GhostEvent, Ghost(s): Ghost<Seq<GhostEvent>>)
    requires
        tick_sorted(old(v)@),
        forall|t: u32| #[trigger] at_tick(old(v)@, t) == at_tick(s, t),
    ensures
        tick_sorted(final(v)@),
        forall|t: u32| #[trigger] at_tick(final(v)@, t) == at_tick(s.push(e), t),
{
    let mut p: usize = 0;
    while p < v.len() && v[p].tick <= e.tick
        invariant
            p <= v.len(),
            tick_sorted(v@),
            forall|i: int| 0 <= i < p ==> v@[i].tick <= e.tick,
        decreases v.len() - p,
    {
        p = p + 1;
    }
    let ghost old_v = v@;
    proof {
        assert forall|i: int| p <= i < old_v.len() implies old_v[i].tick > e.tick by {
            assert(old_v[p as int].tick > e.tick);
        }
    }
    v.insert(p, e);
    proof {
        let lo = old_v.subrange(0, p as int);
        let hi = old_v.subrange(p as int, old_v.len() as int);
        assert(old_v == lo + hi);
        assert(v@ == lo + seq![e] + hi);
        assert forall|t: u32| #[trigger] at_tick(v@, t) == at_tick(s.push(e), t) by {
            lemma_at_tick_concat(lo, hi, t);
            lemma_at_tick_concat(lo + seq![e], hi, t);
            lemma_at_tick_concat(lo, seq![e], t);
            assert(seq![e].drop_last() =~= Seq::<GhostEvent>::empty());
            assert(seq![e].last() == e);
            assert(at_tick(seq![e].drop_last(), t) =~= Seq::<GhostEvent>::empty());
            assert(s.push(e).drop_last() =~= s);
            assert(s.push(e).last() == e);
            assert(at_tick(lo, t) + at_tick(hi, t) == at_tick(s, t));
            if t == e.tick {
                lemma_at_tick_none(hi, t);
                assert(at_tick(seq![e], t) =~= seq![e]);
                assert(at_tick(s.push(e), t) == at_tick(s, t).push(e));
                assert(at_tick(s, t) =~= at_tick(lo, t));
                assert(at_tick(v@, t) =~= at_tick(lo, t) + seq![e]);
            } else {
                assert(at_tick(seq![e], t) =~= Seq::<GhostEvent>::empty());
                assert(at_tick(s.push(e), t) == at_tick(s, t));
                assert(at_tick(v@, t) =~= at_tick(lo, t) + at_tick(hi, t));
            }
        }
    }
}

/// Replaces `ghost_id`'s events in the master timeline with `recording`'s and
/// resets the cursor. Removing first makes re-committing idempotent; the
/// stable sort keeps earlier-folded ghosts first within a tick.
pub fn fold(timeline: &mut ArenaTimeline, ghost_id: u64, recording: &Recording)
    ensures
        stable_sort_of(
            final(timeline).events@,
            folded(old(timeline).events@, ghost_id, recording.events@),
        ),
        final(timeline).events@ == fold_result(old(timeline).events@, ghost_id, recording.events@),
        final(timeline).cursor == 0,
{
    let ghost src = folded(old(timeline).events@, ghost_id, recording.events@);
    let ghost kept_src = without_ghost(old(timeline).events@, ghost_id);
    let mut merged: Vec<GhostEvent> = Vec::new();
    let mut i: usize = 0;
    while i < timeline.events.len()
        invariant
            timeline.events@ == old(timeline).events@,
            i <= timeline.events.len(),
            tick_sorted(merged@),
            forall|t: u32| #[trigger]
                at_tick(merged@, t) == at_tick(
                    without_ghost(timeline.events@.subrange(0, i as int), ghost_id),
                    t,
                ),
        decreases timeline.events.len() - i,
    {
        let e = timeline.events[i];
        let ghost before = without_ghost(timeline.events@.subrange(0, i as int), ghost_id);
        proof {
            assert(timeline.events@.subrange(0, i + 1).drop_last() == timeline.events@.subrange(
                0,
                i as int,
            ));
        }
        if e.ghost_id != ghost_id {
            insert_stable(&mut merged, e, Ghost(before));
        }
        i = i + 1;
    }
    proof {
        assert(timeline.events@.subrange(0, timeline.events@.len() as int)
            == timeline.events@);
    }
    let mut k: usize = 0;
    while k < recording.events.len()
        invariant
            k <= recording.events.len(),
            tick_sorted(merged@),
            forall|t: u32| #[trigger]
                at_tick(merged@, t) == at_tick(
                    kept_src + tagged(recording.events@.subrange(0, k as int), ghost_id),
                    t,
                ),
        decreases recording.events.len() - k,
    {
        let te = recording.events[k];
        let e = GhostEvent { tick: te.tick, ghost_id, action: te.action };
        let ghost before = kept_src + tagged(recording.events@.subrange(0, k as int), ghost_id);
        insert_stable(&mut merged, e, Ghost(before));
        proof {
            assert(kept_src + tagged(recording.events@.subrange(0, k + 1), ghost_id) == before.push(
                e,
            ));
        }
        k = k + 1;
    }
    proof {
        assert(recording.events@.subrange(0, recording.events@.len() as int)
            == recording.events@);
    }
    proof {
        let r = fold_result(old(timeline).events@, ghost_id, recording.events@);
        assert(stable_sort_of(merged@, src));
        assert(stable_sort_of(r, src));
        assert forall|t: u32| #[trigger] at_tick(r, t) == at_tick(merged@, t) by {
            assert(at_tick(r, t) == at_tick(src, t));
            assert(at_tick(merged@, t) == at_tick(src, t));
        }
        lemma_stable_sort_unique(r, merged@);
    }
    timeline.events = merged;
    timeline.cursor = 0;
}

/// Removes every event belonging to `ghost_id` and resyncs the cursor so
/// playback continues from `tick` (the arena clock's current tick): the cursor
/// lands on the first remaining event stamped at or after `tick`.
pub fn unfold(timeline: &mut ArenaTimeline, ghost_id: u64, tick: u32)
    ensures
        final(timeline).events@ == without_ghost(old(timeline).events@, ghost_id),
        final(timeline).cursor == first_at_or_after(final(timeline).events@, tick),
        forall|i: int| 0 <= i < final(timeline).cursor ==> final(timeline).events@[i].tick < tick,
        tick_sorted(old(timeline).events@) ==> tick_sorted(final(timeline).events@),
        tick_sorted(old(timeline).events@) ==> forall|i: int|
            final(timeline).cursor <= i < final(timeline).events@.len() ==> final(timeline).events@[i].tick >= tick,
{
    let mut kept: Vec<GhostEvent> = Vec::new();
    let mut i: usize = 0;
    while i < timeline.events.len()
        invariant
            timeline.events@ == old(timeline).events@,
            i <= timeline.events.len(),
            kept@ == without_ghost(timeline.events@.subrange(0, i as int), ghost_id),
        decreases timeline.events.len() - i,
    {
        let e = timeline.events[i];
        proof {
            assert(timeline.events@.subrange(0, i + 1).drop_last() == timeline.events@.subrange(
                0,
                i as int,
            ));
        }
        if e.ghost_id != ghost_id {
            kept.push(e);
        }
        i = i + 1;
    }
    proof {
        assert(timeline.events@.subrange(0, timeline.events@.len() as int)
            == timeline.events@);
    }
    timeline.events = kept;
    let mut c: usize = 0;
    while c < timeline.events.len() && timeline.events[c].tick < tick
        invariant
            c <= timeline.events.len(),
            first_at_or_after(timeline.events@, tick) == first_at_or_after_from(
                timeline.events@,
                tick,
                c as int,
            ),
        decreases timeline.events.len() - c,
    {
        c = c + 1;
    }
    proof {
        lemma_first_at_or_after_from(timeline.events@, tick, 0);
        lemma_without_ghost_props(old(timeline).events@, ghost_id);
        if tick_sorted(timeline.events@) && c < timeline.events@.len() {
            assert forall|i: int| c <= i < timeline.events@.len() implies timeline.events@[i].tick
                >= tick by {
                assert(timeline.events@[c as int].tick <= timeline.events@[i].tick);
            }
        }
    }
    timeline.cursor = c;
}

/// Restarts an arena's playback: clock to tick 0, cursor to the top, unpaused.
pub fn restart(clock: &mut ArenaClock, timeline: &mut ArenaTimeline)
    ensures
        final(clock).tick == 0,
        !final(clock).paused,
        final(timeline).cursor == 0,
        final(timeline).events@ == old(timeline).events@,
{
    clock.tick = 0;
    clock.paused = false;
    timeline.cursor = 0;
}

/// The next clock value after one tick — wraps at the cycle boundary.
pub fn advance(tick: u32) -> (next: u32)
    requires
        tick < u32::MAX,
    ensures
        next == advance_spec(tick),
{
    (tick + 1) % CYCLE_TICKS
}

/// The events already played at `tick` (every event up to the first one
/// stamped past `tick`) and the playback cursor that goes with them — the
/// scrub math behind a timeline seek.
pub fn seek_window(events: &[GhostEvent], tick: u32) -> (r: (&[GhostEvent], usize))
    ensures
        r.1 == first_after(events@, tick),
        r.0@ == events@.subrange(0, r.1 as int),
        forall|i: int| 0 <= i < r.1 ==> events@[i].tick <= tick,
        tick_sorted(events@) ==> forall|i: int| r.1 <= i < events@.len() ==> events@[i].tick
            > tick,
{
    let mut upto: usize = 0;
    while upto < events.len() && events[upto].tick <= tick
        invariant
            upto <= events@.len(),
            first_after(events@, tick) == first_after_from(events@, tick, upto as int),
        decreases events@.len() - upto,
    {
        upto = upto + 1;
    }
    proof {
        lemma_first_after_from(events@, tick, 0);
        if tick_sorted(events@) && upto < events@.len() {
            assert forall|i: int| upto <= i < events@.len() implies events@[i].tick > tick by {
                assert(events@[upto as int].tick <= events@[i].tick);
            }
        }
    }
    (vstd::slice::slice_subrange(events, 0, upto), upto)
}

/// The playback step of one fixed tick: unless the clock is paused, hands out
/// every event from the cursor on whose tick has arrived (`<= clock.tick`),
/// in order, and moves the cursor past them. The caller performs them (steps
/// the ghost's mover, resolves and casts the ability).
pub fn take_due(timeline: &mut ArenaTimeline, clock: &ArenaClock) -> (due: Vec<GhostEvent>)
    ensures
        final(timeline).events@ == old(timeline).events@,
        clock.paused ==> final(timeline).cursor == old(timeline).cursor && due@.len() == 0,
        !clock.paused && old(timeline).cursor >= old(timeline).events@.len() ==> final(timeline).cursor == old(timeline).cursor && due@.len() == 0,
        !clock.paused && old(timeline).cursor < old(timeline).events@.len() ==> {
            &&& final(timeline).cursor == first_after_from(
                old(timeline).events@,
                clock.tick,
                old(timeline).cursor as int,
            )
            &&& due@ == old(timeline).events@.subrange(
                old(timeline).cursor as int,
                final(timeline).cursor as int,
            )
        },
{
    let mut due: Vec<GhostEvent> = Vec::new();
    if clock.paused || timeline.cursor >= timeline.events.len() {
        return due;
    }
    let start = timeline.cursor;
    while timeline.cursor < timeline.events.len() && timeline.events[timeline.cursor].tick
        <= clock.tick
        invariant
            timeline.events@ == old(timeline).events@,
            start == old(timeline).cursor,
            start <= timeline.cursor <= timeline.events@.len(),
            first_after_from(timeline.events@, clock.tick, start as int) == first_after_from(
                timeline.events@,
                clock.tick,
                timeline.cursor as int,
            ),
            due@ == timeline.events@.subrange(start as int, timeline.cursor as int),
        decreases timeline.events@.len() - timeline.cursor,
    {
        due.push(timeline.events[timeline.cursor]);
        proof {
            assert(timeline.events@.subrange(start as int, timeline.cursor + 1)
                == timeline.events@.subrange(start as int, timeline.cursor as int).push(
                timeline.events@[timeline.cursor as int],
            ));
        }
        timeline.cursor = timeline.cursor + 1;
    }
    due
}

/// Advances an unpaused clock one tick. On the wrap to tick 0 the playback
/// cursor rewinds and `true` is returned: the caller then snaps the arena's
/// ghosts back to their recorded starts. A paused clock holds.
pub fn tick_clock(clock: &mut ArenaClock, timeline: &mut ArenaTimeline) -> (wrapped: bool)
    requires
        old(clock).tick < u32::MAX,
    ensures
        final(timeline).events@ == old(timeline).events@,
        final(clock).paused == old(clock).paused,
        old(clock).paused ==> *final(clock) == *old(clock) && final(timeline).cursor == old(timeline).cursor && !wrapped,
        !old(clock).paused ==> final(clock).tick == advance_spec(old(clock).tick),
        !old(clock).paused ==> wrapped == (final(clock).tick == 0),
        !old(clock).paused && final(clock).tick == 0 ==> final(timeline).cursor == 0,
        !old(clock).paused && final(clock).tick != 0 ==> final(timeline).cursor == old(timeline).cursor,
{
    if clock.paused {
        return false;
    }
    clock.tick = advance(clock.tick);
    if clock.tick == 0 {
        timeline.cursor = 0;
        true
    } else {
        false
    }
}

} // verus!
