//! The boss encounter framework — difficulties, phases, ability loadouts, and
//! the score files that carry an authored boss timeline from the author tool
//! to the game.
//!
//! Every boss fight is one two-minute arena cycle split into [`PHASES`] equal
//! phases; each phase hands the boss [`ABILITY_SLOTS`] ability slots; and each
//! [`Difficulty`] owns its own timeline.

use vstd::prelude::*;

use crate::ability::AbilityId;
use crate::arena::{arena_index, Arena};
use crate::grid::IVec2;
use crate::timeline::{Action, GhostEvent, Recording, TimelineEvent, CYCLE_TICKS};

verus! {

/// One of the three encounter difficulties.
#[derive(Clone, Copy, PartialEq, Eq, Debug, Hash, Structural)]
pub enum Difficulty {
    Normal,
    Heroic,
    Mythic,
}

pub open spec fn difficulty_slug(d: Difficulty) -> Seq<char> {
    match d {
        Difficulty::Normal => "normal"@,
        Difficulty::Heroic => "heroic"@,
        Difficulty::Mythic => "mythic"@,
    }
}

pub open spec fn difficulty_next(d: Difficulty) -> Difficulty {
    match d {
        Difficulty::Normal => Difficulty::Heroic,
        Difficulty::Heroic => Difficulty::Mythic,
        Difficulty::Mythic => Difficulty::Normal,
    }
}

impl Difficulty {
    /// All difficulties, in ascending order.
    pub const ALL: [Difficulty; 3] = [Difficulty::Normal, Difficulty::Heroic, Difficulty::Mythic];

    /// The difficulty's directory slug under an arena's encounter folder.
    pub fn slug(self) -> (r: &'static str)
        ensures
            r@ == difficulty_slug(self),
    {
        match self {
            Difficulty::Normal => "normal",
            Difficulty::Heroic => "heroic",
            Difficulty::Mythic => "mythic",
        }
    }

    /// The next difficulty, cyclic.
    pub fn next(self) -> (r: Difficulty)
        ensures
            r == difficulty_next(self),
    {
        match self {
            Difficulty::Normal => Difficulty::Heroic,
            Difficulty::Heroic => Difficulty::Mythic,
            Difficulty::Mythic => Difficulty::Normal,
        }
    }
}

impl Default for Difficulty {
    fn default() -> (d: Difficulty)
        ensures
            d == Difficulty::Normal,
    {
        Difficulty::Normal
    }
}

/// The difficulty the game is playing (and the author tool authoring). Score
/// loading and boss ability resolution both read it; swapping it re-points
/// every arena at that difficulty's timelines.
#[derive(Clone, Copy, PartialEq, Eq, Debug, Structural)]
pub struct ActiveDifficulty(pub Difficulty);

impl Default for ActiveDifficulty {
    fn default() -> (a: ActiveDifficulty)
        ensures
            a.0 == Difficulty::Normal,
    {
        ActiveDifficulty(Difficulty::Normal)
    }
}

/// Cycling the difficulty visits all three and returns after three steps.
pub proof fn law_difficulty_cycles(d: Difficulty)
    ensures
        difficulty_next(difficulty_next(difficulty_next(d))) == d,
        difficulty_next(d) != d,
        difficulty_next(difficulty_next(d)) != d,
{
}

/// Phases per two-minute cycle.
pub const PHASES: usize = 3;

/// Ability slots a boss holds per phase (mirrors the hero's `1..=4` keys).
pub const ABILITY_SLOTS: usize = 4;

/// Ticks per phase — equal thirds of the cycle.
pub const PHASE_TICKS: u32 = 2400;

/// The phase (`0..PHASES`) a tick falls in; ticks past the cycle clamp to the
/// last phase.
pub open spec fn phase_at_spec(tick: u32) -> int {
    let p = tick as int / PHASE_TICKS as int;
    if p > 2 {
        2
    } else {
        p
    }
}

/// The phase (`0..PHASES`) a cycle tick falls in — the one place phase
/// boundaries live.
pub fn phase_at(tick: u32) -> (p: usize)
    ensures
        p == phase_at_spec(tick),
        p < PHASES,
{
    let p = tick / PHASE_TICKS;
    if p > 2 {
        2
    } else {
        p as usize
    }
}

/// The phases are equal thirds of the cycle: a tick is in phase `k` exactly
/// when it lies in `[k·PHASE_TICKS, (k+1)·PHASE_TICKS)`.
pub proof fn law_phases_are_equal_thirds(tick: u32, k: int)
    requires
        0 <= k < 3,
        tick < CYCLE_TICKS,
    ensures
        phase_at_spec(tick) == k <==> k * 2400 <= tick < (k + 1) * 2400,
{
}

/// The ability in one loadout slot — every slot of every phase of every boss
/// on every difficulty is Holy Nova today.
pub open spec fn loadout_slot(arena: Arena, difficulty: Difficulty, phase: int, slot: int) -> AbilityId {
    AbilityId::HolyNova
}

/// The boss's ability loadout for one `(arena, difficulty)`: one row of
/// [`ABILITY_SLOTS`] abilities per phase.
pub fn loadout(arena: Arena, difficulty: Difficulty) -> (l: [[AbilityId; 4]; 3])
    ensures
        forall|p: int, s: int|
            0 <= p < 3 && 0 <= s < 4 ==> #[trigger] l@[p]@[s] == loadout_slot(arena, difficulty, p, s),
{
    let row = [AbilityId::HolyNova, AbilityId::HolyNova, AbilityId::HolyNova, AbilityId::HolyNova];
    let l = [row, row, row];
    proof {
        assert forall|p: int, s: int| 0 <= p < 3 && 0 <= s < 4 implies #[trigger] l@[p]@[s]
            == loadout_slot(arena, difficulty, p, s) by {
            assert(l@[p] == row);
        }
    }
    l
}

/// What an ability event resolves to: a boss reads slot `1..=4` from its
/// phase loadout at the event's tick; a hero has only slot 1 (Holy Nova).
pub open spec fn resolve_ability_spec(
    is_boss: bool,
    arena: Arena,
    difficulty: Difficulty,
    slot: u8,
    tick: u32,
) -> Option<AbilityId> {
    if is_boss {
        if 1 <= slot <= 4 {
            Some(loadout_slot(arena, difficulty, phase_at_spec(tick), slot - 1))
        } else {
            None
        }
    } else if slot == 1 {
        Some(AbilityId::HolyNova)
    } else {
        None
    }
}

/// The ability an ability-slot playback event resolves to at `tick`.
pub fn resolve_ability(
    is_boss: bool,
    arena: Arena,
    difficulty: Difficulty,
    slot: u8,
    tick: u32,
) -> (r: Option<AbilityId>)
    ensures
        r == resolve_ability_spec(is_boss, arena, difficulty, slot, tick),
{
    if is_boss {
        if slot == 0 {
            return None;
        }
        let index = (slot - 1) as usize;
        let l = loadout(arena, difficulty);
        let row = l[phase_at(tick)];
        if index < ABILITY_SLOTS {
            Some(row[index])
        } else {
            None
        }
    } else if slot == 1 {
        Some(AbilityId::HolyNova)
    } else {
        None
    }
}

/// What a played-back event casts: a step casts nothing; an ability event
/// resolves at the tick it was recorded at, so it keeps the phase it was
/// authored in even when playback lags behind the clock.
pub open spec fn cast_of_spec(event: GhostEvent, is_boss: bool, arena: Arena, difficulty: Difficulty) -> Option<
    AbilityId,
> {
    match event.action {
        Action::Move(_) => None,
        Action::Ability { slot, .. } => resolve_ability_spec(is_boss, arena, difficulty, slot, event.tick),
    }
}

/// The ability a due playback event casts for its ghost.
pub fn cast_of(event: &GhostEvent, is_boss: bool, arena: Arena, difficulty: Difficulty) -> (r: Option<
    AbilityId,
>)
    ensures
        r == cast_of_spec(*event, is_boss, arena, difficulty),
{
    match event.action {
        Action::Move(_) => None,
        Action::Ability { slot, .. } => resolve_ability(is_boss, arena, difficulty, slot, event.tick),
    }
}

/// The hotbar's ability in `slot`: the selected character's resolved loadout
/// at its arena's tick (`selected` holds whether it is a boss, and that
/// tick). With nothing selected every slot is empty — never a defaulted hero
/// loadout.
pub fn slot_ability(selected: Option<(bool, u32)>, arena: Arena, difficulty: Difficulty, slot: u8) -> (r:
    Option<AbilityId>)
    ensures
        r == match selected {
            None => None,
            Some((is_boss, tick)) => resolve_ability_spec(is_boss, arena, difficulty, slot, tick),
        },
{
    match selected {
        None => None,
        Some((is_boss, tick)) => resolve_ability(is_boss, arena, difficulty, slot, tick),
    }
}

/// The abilities a possessed boss live-casts when slot keys `2`-`4` are
/// pressed (flagged in `pressed` in that order), each resolved exactly as
/// playback resolves it at `tick`; a slot with nothing in it casts nothing.
pub open spec fn boss_casts_spec(arena: Arena, difficulty: Difficulty, tick: u32, pressed: Seq<bool>, n: int) -> Seq<
    AbilityId,
>
    decreases n,
{
    if n <= 0 {
        Seq::empty()
    } else {
        let before = boss_casts_spec(arena, difficulty, tick, pressed, n - 1);
        if pressed[n - 1] {
            match resolve_ability_spec(true, arena, difficulty, (n + 1) as u8, tick) {
                Some(id) => before.push(id),
                None => before,
            }
        } else {
            before
        }
    }
}

/// The casts for a possessed boss's pressed slot keys `2`-`4`, in slot order.
pub fn boss_casts(arena: Arena, difficulty: Difficulty, tick: u32, pressed: [bool; 3]) -> (casts: Vec<
    AbilityId,
>)
    ensures
        casts@ == boss_casts_spec(arena, difficulty, tick, pressed@, 3),
{
    let mut casts: Vec<AbilityId> = Vec::new();
    let mut i: usize = 0;
    while i < 3
        invariant
            i <= 3,
            casts@ == boss_casts_spec(arena, difficulty, tick, pressed@, i as int),
        decreases 3 - i,
    {
        if pressed[i] {
            let slot: u8 = (i + 2) as u8;
            if let Some(id) = resolve_ability(true, arena, difficulty, slot, tick) {
                casts.push(id);
            }
        }
        i = i + 1;
    }
    casts
}

// --- Score files --------------------------------------------------------------

/// Bumped when the file schema changes; readers reject unknown formats.
pub const SCORE_FORMAT: u32 = 1;

/// File prefix of a boss movement/ability score (`boss.vNNNN.ron`).
pub const BOSS_PREFIX: &'static str = "boss";

/// One serialized action — plain tuples so the file format stays stable. The
/// legacy boss format carries no cast direction.
#[derive(Clone, Copy, PartialEq, Eq, Debug, Structural)]
pub enum EventDto {
    Move(i32, i32),
    Ability(u8),
}

pub open spec fn event_dto_of(a: Action) -> EventDto {
    match a {
        Action::Move(d) => EventDto::Move(d.x, d.y),
        Action::Ability { slot, aim } => EventDto::Ability(slot),
    }
}

pub open spec fn action_of_event_dto(e: EventDto) -> Action {
    match e {
        EventDto::Move(x, y) => Action::Move(IVec2 { x, y }),
        EventDto::Ability(slot) => Action::Ability { slot, aim: None },
    }
}

impl vstd::std_specs::convert::FromSpecImpl<Action> for EventDto {
    open spec fn obeys_from_spec() -> bool {
        true
    }

    open spec fn from_spec(v: Action) -> EventDto {
        event_dto_of(v)
    }
}

impl From<Action> for EventDto {
    fn from(action: Action) -> (r: EventDto) {
        match action {
            Action::Move(delta) => EventDto::Move(delta.x, delta.y),
            Action::Ability { slot, aim: _ } => EventDto::Ability(slot),
        }
    }
}

impl vstd::std_specs::convert::FromSpecImpl<EventDto> for Action {
    open spec fn obeys_from_spec() -> bool {
        true
    }

    open spec fn from_spec(v: EventDto) -> Action {
        action_of_event_dto(v)
    }
}

impl From<EventDto> for Action {
    fn from(dto: EventDto) -> (r: Action) {
        match dto {
            EventDto::Move(x, y) => Action::Move(IVec2::new(x, y)),
            EventDto::Ability(slot) => Action::Ability { slot, aim: None },
        }
    }
}

/// A file row for each event of a recording.
pub open spec fn event_rows(events: Seq<TimelineEvent>) -> Seq<(u32, EventDto)> {
    events.map_values(|e: TimelineEvent| (e.tick, event_dto_of(e.action)))
}

/// The events a file's rows stand for.
pub open spec fn events_of_rows(rows: Seq<(u32, EventDto)>) -> Seq<TimelineEvent> {
    rows.map_values(|r: (u32, EventDto)| TimelineEvent { tick: r.0, action: action_of_event_dto(r.1) })
}

/// Why a reader refused a score file's header.
#[derive(Clone, Copy, PartialEq, Eq, Debug, Structural)]
pub enum ScoreHeaderError {
    /// The file speaks another schema version than the reader.
    Format { found: u32, expected: u32 },
    /// The file belongs to another `(arena, difficulty)` directory.
    Directory {
        file_arena: u8,
        file_difficulty: Difficulty,
        arena: u8,
        difficulty: Difficulty,
    },
}

/// The header check shared by every score reader.
pub open spec fn validate_header_spec(
    format: u32,
    expected: u32,
    file_arena: u8,
    file_difficulty: Difficulty,
    arena: Arena,
    difficulty: Difficulty,
) -> Result<(), ScoreHeaderError> {
    if format != expected {
        Err(ScoreHeaderError::Format { found: format, expected })
    } else if file_arena != arena_index(arena) || file_difficulty != difficulty {
        Err(
            ScoreHeaderError::Directory {
                file_arena,
                file_difficulty,
                arena: arena_index(arena) as u8,
                difficulty,
            },
        )
    } else {
        Ok(())
    }
}

/// The shared header check: the file must speak the reader's `expected`
/// format and belong to the `(arena, difficulty)` directory it was found in.
pub fn validate_header(
    format: u32,
    expected: u32,
    file_arena: u8,
    file_difficulty: Difficulty,
    arena: Arena,
    difficulty: Difficulty,
) -> (r: Result<(), ScoreHeaderError>)
    ensures
        r == validate_header_spec(format, expected, file_arena, file_difficulty, arena, difficulty),
{
    if format != expected {
        return Err(ScoreHeaderError::Format { found: format, expected });
    }
    let index = arena.index();
    if file_arena as usize != index || file_difficulty != difficulty {
        return Err(
            ScoreHeaderError::Directory {
                file_arena,
                file_difficulty,
                arena: index as u8,
                difficulty,
            },
        );
    }
    Ok(())
}

/// One authored boss timeline on disk: the boss's tick-0 tile plus its
/// tick-stamped intent events. `arena`/`difficulty` restate the directory the
/// file lives in, so a stray file is self-describing.
#[derive(PartialEq, Eq, Debug)]
pub struct BossScoreFile {
    pub format: u32,
    pub arena: u8,
    pub difficulty: Difficulty,
    pub start: (i32, i32),
    pub events: Vec<(u32, EventDto)>,
}

/// The rows of a recording, built one by one.
pub fn rows_of_events(events: &Vec<TimelineEvent>) -> (rows: Vec<(u32, EventDto)>)
    ensures
        rows@ == event_rows(events@),
{
    let mut rows: Vec<(u32, EventDto)> = Vec::new();
    let mut i: usize = 0;
    while i < events.len()
        invariant
            i <= events.len(),
            rows@ == event_rows(events@.subrange(0, i as int)),
        decreases events.len() - i,
    {
        let e = events[i];
        rows.push((e.tick, EventDto::from(e.action)));
        proof {
            assert(event_rows(events@.subrange(0, i + 1)) =~= event_rows(
                events@.subrange(0, i as int),
            ).push((e.tick, event_dto_of(e.action))));
        }
        i = i + 1;
    }
    proof {
        assert(events@.subrange(0, events@.len() as int) =~= events@);
    }
    rows
}

/// The events that file rows stand for, built one by one.
pub fn events_of(rows: &Vec<(u32, EventDto)>) -> (events: Vec<TimelineEvent>)
    ensures
        events@ == events_of_rows(rows@),
{
    let mut events: Vec<TimelineEvent> = Vec::new();
    let mut i: usize = 0;
    while i < rows.len()
        invariant
            i <= rows.len(),
            events@ == events_of_rows(rows@.subrange(0, i as int)),
        decreases rows.len() - i,
    {
        let (tick, dto) = rows[i];
        events.push(TimelineEvent { tick, action: Action::from(dto) });
        proof {
            assert(events_of_rows(rows@.subrange(0, i + 1)) =~= events_of_rows(
                rows@.subrange(0, i as int),
            ).push(TimelineEvent { tick, action: action_of_event_dto(dto) }));
        }
        i = i + 1;
    }
    proof {
        assert(rows@.subrange(0, rows@.len() as int) =~= rows@);
    }
    events
}

impl BossScoreFile {
    /// Rejects a header the reader can't trust: an unknown [`SCORE_FORMAT`]
    /// or a file that drifted into another `(arena, difficulty)` directory.
    pub fn validate(&self, arena: Arena, difficulty: Difficulty) -> (r: Result<(), ScoreHeaderError>)
        ensures
            r == validate_header_spec(
                self.format,
                SCORE_FORMAT,
                self.arena,
                self.difficulty,
                arena,
                difficulty,
            ),
    {
        validate_header(self.format, SCORE_FORMAT, self.arena, self.difficulty, arena, difficulty)
    }

    /// Wraps a committed recording for writing.
    pub fn from_recording(arena: Arena, difficulty: Difficulty, recording: &Recording) -> (f: BossScoreFile)
        ensures
            f.format == SCORE_FORMAT,
            f.arena == arena_index(arena),
            f.difficulty == difficulty,
            f.start == (recording.start.x, recording.start.y),
            f.events@ == event_rows(recording.events@),
    {
        BossScoreFile {
            format: SCORE_FORMAT,
            arena: arena.index() as u8,
            difficulty,
            start: (recording.start.x, recording.start.y),
            events: rows_of_events(&recording.events),
        }
    }

    /// The recording this file carries — ready to fold into an arena's master
    /// timeline.
    pub fn recording(&self) -> (r: Recording)
        ensures
            r.start == (IVec2 { x: self.start.0, y: self.start.1 }),
            r.events@ == events_of_rows(self.events@),
    {
        Recording { start: IVec2::new(self.start.0, self.start.1), events: events_of(&self.events) }
    }
}

/// A recording's ability events carry no cast direction.
pub open spec fn aimless(events: Seq<TimelineEvent>) -> bool {
    forall|i: int|
        0 <= i < events.len() ==> (#[trigger] events[i].action matches Action::Ability { aim, .. }
            ==> aim is None)
}

/// Writing a recording into a boss score file and reading it back gives the
/// same recording, whenever its ability events carry no cast direction (the
/// legacy boss format has no field for one).
pub proof fn law_boss_score_round_trip(events: Seq<TimelineEvent>)
    requires
        aimless(events),
    ensures
        events_of_rows(event_rows(events)) == events,
{
    assert forall|i: int| 0 <= i < events.len() implies #[trigger] events_of_rows(
        event_rows(events),
    )[i] == events[i] by {
        let e = events[i];
        match e.action {
            Action::Move(d) => {},
            Action::Ability { slot, aim } => {
                assert(aim is None);
            },
        }
    }
    assert(events_of_rows(event_rows(events)) =~= events);
}

/// A score file is accepted by exactly the reader of its own format and
/// directory: written for `(arena, difficulty)`, it validates there and is
/// refused for any other arena or difficulty.
pub proof fn law_readers_accept_only_their_directory(
    arena: Arena,
    difficulty: Difficulty,
    other_arena: Arena,
    other_difficulty: Difficulty,
)
    ensures
        validate_header_spec(
            SCORE_FORMAT,
            SCORE_FORMAT,
            arena_index(arena) as u8,
            difficulty,
            arena,
            difficulty,
        ) == Ok::<(), ScoreHeaderError>(()),
        validate_header_spec(
            SCORE_FORMAT,
            SCORE_FORMAT,
            arena_index(arena) as u8,
            difficulty,
            other_arena,
            other_difficulty,
        ) is Ok ==> other_arena == arena && other_difficulty == difficulty,
{
}

} // verus!
