//! The author tool's tile editor and transport: a cell cursor, in/out marks
//! for the tick range newly painted keyframes get, painting (a toggle per
//! cell), scrubbing a paused arena by whole seconds with ghost poses
//! re-derived from the timeline, the difficulty cycle, and boss possession.

use vstd::prelude::*;

use crate::arena::{arena_slug, Arena};
use crate::encounter::{Difficulty, difficulty_next};
use crate::recording::{clock_chars, clock_text};
use crate::versions::{chars_of, decimal_digits, lemma_decimal_digits, padded_digits, string_from_chars};
use crate::grid::{clamp_i32, clamp_spec, IVec2, TileMover, MAX_COL, MAX_ROW};
use crate::tile::TileKind;
use crate::tile_script::{TileKeyframe, TileSelector};
use crate::timeline::{Action, ArenaClock, GhostEvent, CYCLE_TICKS, TICKS_PER_SECOND};

verus! {

/// The tile editor's working state: the cell the cursor sits on, and the
/// `[mark_in, mark_out)` tick range new keyframes span.
#[derive(Clone, Copy, PartialEq, Eq, Debug, Structural)]
pub struct TileEditor {
    pub cursor: IVec2,
    pub mark_in: u32,
    pub mark_out: u32,
}

impl TileEditor {
    /// The cursor is on the board.
    pub open spec fn wf(self) -> bool {
        0 <= self.cursor.x <= MAX_COL && 0 <= self.cursor.y <= MAX_ROW
    }

    /// The cursor mid-board, the marks spanning the whole cycle.
    pub fn new() -> (e: TileEditor)
        ensures
            e.cursor == (IVec2 { x: 33, y: 15 }),
            e.mark_in == 0,
            e.mark_out == CYCLE_TICKS,
            e.wf(),
    {
        TileEditor { cursor: IVec2 { x: 33, y: 15 }, mark_in: 0, mark_out: CYCLE_TICKS }
    }
}

impl Default for TileEditor {
    fn default() -> (e: TileEditor)
        ensures
            e.cursor == (IVec2 { x: 33, y: 15 }),
            e.mark_in == 0,
            e.mark_out == CYCLE_TICKS,
    {
        TileEditor::new()
    }
}

/// Arrows: steer the cursor one cell per press, staying on the board.
pub fn move_cursor(editor: &mut TileEditor, delta: IVec2)
    requires
        i32::MIN <= old(editor).cursor.x + delta.x <= i32::MAX,
        i32::MIN <= old(editor).cursor.y + delta.y <= i32::MAX,
    ensures
        final(editor).cursor.x == clamp_spec(old(editor).cursor.x + delta.x, 0, MAX_COL as int),
        final(editor).cursor.y == clamp_spec(old(editor).cursor.y + delta.y, 0, MAX_ROW as int),
        final(editor).mark_in == old(editor).mark_in,
        final(editor).mark_out == old(editor).mark_out,
        final(editor).wf(),
{
    editor.cursor.x = clamp_i32(editor.cursor.x + delta.x, 0, MAX_COL);
    editor.cursor.y = clamp_i32(editor.cursor.y + delta.y, 0, MAX_ROW);
}

/// `I`/`O`: set the in/out marks to the scrubbed tick. `O` lands on the end
/// of the tick so `[I, O]` covers what was watched; the pair stays
/// non-empty.
pub fn set_marks(editor: &mut TileEditor, tick: u32, set_in: bool, set_out: bool)
    requires
        set_out ==> tick < u32::MAX,
    ensures
        final(editor).cursor == old(editor).cursor,
        ({
            let (i1, o1) = if set_in {
                (tick, if old(editor).mark_out <= tick {
                    CYCLE_TICKS
                } else {
                    old(editor).mark_out
                })
            } else {
                (old(editor).mark_in, old(editor).mark_out)
            };
            let (i2, o2) = if set_out {
                let o = (tick + 1) as u32;
                (if i1 >= o {
                    (o - 1) as u32
                } else {
                    i1
                }, o)
            } else {
                (i1, o1)
            };
            final(editor).mark_in == i2 && final(editor).mark_out == o2
        }),
{
    if set_in {
        editor.mark_in = tick;
        if editor.mark_out <= editor.mark_in {
            editor.mark_out = CYCLE_TICKS;
        }
    }
    if set_out {
        editor.mark_out = tick + 1;
        if editor.mark_in >= editor.mark_out {
            editor.mark_in = editor.mark_out - 1;
        }
    }
}

/// The keyframe `Space` paints: Lava on the cursor's cell over the marks.
pub open spec fn painted_key(e: TileEditor) -> TileKeyframe {
    TileKeyframe {
        from: e.mark_in,
        to: e.mark_out,
        selector: TileSelector::Cell { col: e.cursor.x as u8, row: e.cursor.y as u8 },
        kind: TileKind::Lava,
    }
}

/// `Space`: toggles a Lava keyframe on the cursor's cell. Painting a cell
/// that already has keyframes removes them all instead, whatever their
/// range; otherwise the new keyframe goes last.
pub fn paint(keyframes: &mut Vec<TileKeyframe>, editor: &TileEditor)
    requires
        editor.wf(),
    ensures
        ({
            let sel = painted_key(*editor).selector;
            let kept = old(keyframes)@.filter(|k: TileKeyframe| k.selector != sel);
            final(keyframes)@ == if kept.len() == old(keyframes)@.len() {
                kept.push(painted_key(*editor))
            } else {
                kept
            }
        }),
{
    let selector = TileSelector::Cell { col: editor.cursor.x as u8, row: editor.cursor.y as u8 };
    let key = TileKeyframe { from: editor.mark_in, to: editor.mark_out, selector, kind: TileKind::Lava };
    let ghost pred = |k: TileKeyframe| k.selector != selector;
    let mut kept: Vec<TileKeyframe> = Vec::new();
    let mut i: usize = 0;
    while i < keyframes.len()
        invariant
            i <= keyframes@.len(),
            keyframes@ == old(keyframes)@,
            pred == (|k: TileKeyframe| k.selector != selector),
            kept@ == keyframes@.subrange(0, i as int).filter(pred),
        decreases keyframes@.len() - i,
    {
        let k = keyframes[i];
        proof {
            assert(keyframes@.subrange(0, i + 1).drop_last() =~= keyframes@.subrange(0, i as int));
            assert(keyframes@.subrange(0, i + 1).last() == k);
            reveal(Seq::filter);
        }
        if k.selector != selector {
            kept.push(k);
        }
        i = i + 1;
    }
    proof {
        assert(keyframes@.subrange(0, keyframes@.len() as int) =~= keyframes@);
        assert(painted_key(*editor) == key);
    }
    if kept.len() == keyframes.len() {
        kept.push(key);
    }
    *keyframes = kept;
}

/// The tick a scrub lands on: `tick` moved by `dir` seconds (ten with
/// `Shift`), clamped into the cycle.
pub open spec fn scrub_target_spec(tick: u32, dir: int, coarse: bool) -> u32 {
    let step: int = TICKS_PER_SECOND * (if coarse {
        10int
    } else {
        1int
    });
    clamp_spec(tick + (if dir > 0 {
        step
    } else {
        -step
    }), 0, CYCLE_TICKS - 1) as u32
}

/// `.`/`,`: the tick a scrub of the paused arena lands on; `None` when the
/// two keys cancel out (or neither is pressed).
pub fn scrub_target(tick: u32, later: bool, earlier: bool, coarse: bool) -> (t: Option<u32>)
    ensures
        ({
            let dir: int = (if later {
                1int
            } else {
                0int
            }) - (if earlier {
                1int
            } else {
                0int
            });
            if dir == 0 {
                t is None
            } else {
                t == Some(scrub_target_spec(tick, dir, coarse))
            }
        }),
{
    let dir: i64 = (if later {
        1
    } else {
        0
    }) - (if earlier {
        1
    } else {
        0
    });
    if dir == 0 {
        return None;
    }
    let step: i64 = (TICKS_PER_SECOND as i64) * (if coarse {
        10
    } else {
        1
    });
    let target: i64 = if dir > 0 {
        (tick as i64) + step
    } else {
        (tick as i64) - step
    };
    let last: i64 = (CYCLE_TICKS - 1) as i64;
    let clamped: i64 = if target < 0 {
        0
    } else if target > last {
        last
    } else {
        target
    };
    Some(clamped as u32)
}

/// One ghost's pose during a scrub: its id and tile.
pub open spec fn first_with_id(poses: Seq<(u64, TileMover)>, id: u64) -> Option<int>
    decreases poses.len(),
{
    if poses.len() == 0 {
        None
    } else {
        match first_with_id(poses.drop_last(), id) {
            Some(i) => Some(i),
            None => if poses.last().0 == id {
                Some(poses.len() - 1)
            } else {
                None
            },
        }
    }
}

/// The poses after one played event: a move steps its ghost (clamped to the
/// board); anything else, or an event of a ghost not posed here, changes
/// nothing.
pub open spec fn replay_step(poses: Seq<(u64, TileMover)>, ev: GhostEvent) -> Seq<(u64, TileMover)> {
    match ev.action {
        Action::Move(d) => match first_with_id(poses, ev.ghost_id) {
            Some(i) => poses.update(
                i,
                (
                    ev.ghost_id,
                    TileMover {
                        col: clamp_spec(poses[i].1.col + d.x, 0, MAX_COL as int) as i32,
                        row: clamp_spec(poses[i].1.row + d.y, 0, MAX_ROW as int) as i32,
                    },
                ),
            ),
            None => poses,
        },
        _ => poses,
    }
}

/// The poses after the first `n` events of `window`.
pub open spec fn replayed(poses: Seq<(u64, TileMover)>, window: Seq<GhostEvent>, n: int) -> Seq<
    (u64, TileMover),
>
    decreases n,
{
    if n <= 0 {
        poses
    } else {
        replay_step(replayed(poses, window, n - 1), window[n - 1])
    }
}

/// Every pose is on the board.
pub open spec fn on_board(poses: Seq<(u64, TileMover)>) -> bool {
    forall|i: int|
        0 <= i < poses.len() ==> 0 <= #[trigger] poses[i].1.col <= MAX_COL && 0 <= poses[i].1.row
            <= MAX_ROW
}

/// No move of `window` can overflow a pose on the board.
pub open spec fn steps_fit(window: Seq<GhostEvent>) -> bool {
    forall|k: int|
        0 <= k < window.len() ==> match #[trigger] window[k].action {
            Action::Move(d) => d.x <= i32::MAX - MAX_COL && d.y <= i32::MAX - MAX_ROW,
            _ => true,
        }
}

/// The ghost poses at the scrub target, re-derived deterministically: every
/// ghost snapped to its start (clamped to the board), then the `window` of
/// already-played events replayed in order.
pub fn scrub_poses(starts: &Vec<(u64, IVec2)>, window: &[GhostEvent]) -> (poses: Vec<(u64, TileMover)>)
    requires
        steps_fit(window@),
    ensures
        poses@ == replayed(
            starts@.map_values(
                |s: (u64, IVec2)|
                    (
                        s.0,
                        TileMover {
                            col: clamp_spec(s.1.x as int, 0, MAX_COL as int) as i32,
                            row: clamp_spec(s.1.y as int, 0, MAX_ROW as int) as i32,
                        },
                    ),
            ),
            window@,
            window@.len() as int,
        ),
{
    let ghost snapped = starts@.map_values(
        |s: (u64, IVec2)|
            (
                s.0,
                TileMover {
                    col: clamp_spec(s.1.x as int, 0, MAX_COL as int) as i32,
                    row: clamp_spec(s.1.y as int, 0, MAX_ROW as int) as i32,
                },
            ),
    );
    let mut poses: Vec<(u64, TileMover)> = Vec::new();
    let mut i: usize = 0;
    while i < starts.len()
        invariant
            i <= starts@.len(),
            poses@ == snapped.subrange(0, i as int),
            snapped == starts@.map_values(
                |s: (u64, IVec2)|
                    (
                        s.0,
                        TileMover {
                            col: clamp_spec(s.1.x as int, 0, MAX_COL as int) as i32,
                            row: clamp_spec(s.1.y as int, 0, MAX_ROW as int) as i32,
                        },
                    ),
            ),
        decreases starts@.len() - i,
    {
        let (id, start) = starts[i];
        let mut m = TileMover::new(0, 0);
        m.snap_to(start.x, start.y);
        poses.push((id, m));
        proof {
            assert(snapped.subrange(0, i + 1) =~= snapped.subrange(0, i as int).push(snapped[i as int]));
        }
        i = i + 1;
    }
    proof {
        assert(snapped.subrange(0, starts@.len() as int) =~= snapped);
    }
    replay(&mut poses, window);
    poses
}

/// Plays `window` onto the ghost poses in order: each move steps its ghost
/// (the first pose with that id), clamped to the board; abilities, and moves
/// of ghosts not posed here, change nothing. Playback and scrubbing share it,
/// so a scrubbed pose is exactly where playback would have put the ghost.
pub fn replay(poses: &mut Vec<(u64, TileMover)>, window: &[GhostEvent])
    requires
        on_board(old(poses)@),
        steps_fit(window@),
    ensures
        final(poses)@ == replayed(old(poses)@, window@, window@.len() as int),
        on_board(final(poses)@),
{
    let ghost start = poses@;
    let mut k: usize = 0;
    while k < window.len()
        invariant
            k <= window@.len(),
            steps_fit(window@),
            poses@ == replayed(start, window@, k as int),
            on_board(poses@),
        decreases window@.len() - k,
    {
        let ev = window[k];
        let ghost before = poses@;
        match ev.action {
            Action::Move(d) => {
                let mut j: usize = 0;
                let mut found = false;
                while j < poses.len() && !found
                    invariant
                        j <= poses@.len(),
                        poses@ == before,
                        !found ==> forall|x: int| 0 <= x < j ==> poses@[x].0 != ev.ghost_id,
                        found ==> j > 0 && poses@[j - 1].0 == ev.ghost_id && forall|x: int|
                            0 <= x < j - 1 ==> poses@[x].0 != ev.ghost_id,
                    decreases poses@.len() - j + (if found {
                        0int
                    } else {
                        1int
                    }),
                {
                    if poses[j].0 == ev.ghost_id {
                        found = true;
                    }
                    j = j + 1;
                }
                proof {
                    lemma_first_with_id(before, ev.ghost_id);
                }
                if found {
                    let idx = j - 1;
                    let (id, mover) = poses[idx];
                    proof {
                        assert(first_with_id(before, ev.ghost_id) == Some(idx as int));
                        assert(0 <= mover.col <= MAX_COL);
                        let _ = window@[k as int];
                    }
                    let mut m = mover;
                    m.step(d);
                    poses.set(idx, (id, m));
                } else {
                    proof {
                        assert(first_with_id(before, ev.ghost_id) is None);
                    }
                }
            },
            _ => {},
        }
        k = k + 1;
    }
}

/// Playing the timeline in pieces puts the ghosts where playing it in one
/// go does: replaying `a` and then `b` equals replaying `a + b`. So a ghost
/// played frame by frame stands where a scrub to the same tick puts it.
pub proof fn law_replay_in_pieces(p: Seq<(u64, TileMover)>, a: Seq<GhostEvent>, b: Seq<GhostEvent>)
    ensures
        replayed(replayed(p, a, a.len() as int), b, b.len() as int) == replayed(p, a + b, (a + b).len() as int),
    decreases b.len(),
{
    lemma_replayed_prefix(p, a + b, a.len() as int, a);
    if b.len() > 0 {
        let b0 = b.drop_last();
        law_replay_in_pieces(p, a, b0);
        lemma_replayed_prefix(replayed(p, a, a.len() as int), b, b0.len() as int, b0);
        lemma_replayed_prefix(p, a + b, (a + b0).len() as int, a + b0);
        assert((a + b)[(a + b).len() - 1] == b[b.len() - 1]);
    }
}

/// Replaying the first `n` events of `w` only reads those events: any `v`
/// that agrees with `w` on them replays the same.
proof fn lemma_replayed_prefix(p: Seq<(u64, TileMover)>, w: Seq<GhostEvent>, n: int, v: Seq<GhostEvent>)
    requires
        0 <= n <= w.len(),
        n <= v.len(),
        forall|k: int| 0 <= k < n ==> w[k] == v[k],
    ensures
        replayed(p, w, n) == replayed(p, v, n),
    decreases n,
{
    if n > 0 {
        lemma_replayed_prefix(p, w, n - 1, v);
    }
}

/// Where `first_with_id` points: the first pose with that id.
pub proof fn lemma_first_with_id(poses: Seq<(u64, TileMover)>, id: u64)
    ensures
        match first_with_id(poses, id) {
            Some(i) => 0 <= i < poses.len() && poses[i].0 == id && forall|x: int|
                0 <= x < i ==> poses[x].0 != id,
            None => forall|x: int| 0 <= x < poses.len() ==> poses[x].0 != id,
        },
    decreases poses.len(),
{
    if poses.len() > 0 {
        lemma_first_with_id(poses.drop_last(), id);
        assert forall|x: int| 0 <= x < poses.len() - 1 implies poses[x] == poses.drop_last()[x] by {}
    }
}

/// `T` in the author tool: opening the tile editor pauses the current
/// arena (the cursor and scrub target are pinned to it); closing it lets
/// the arena run again. Returns whether the editor is now open.
pub fn toggle_tile_mode(editing: bool, clock: &mut ArenaClock) -> (open: bool)
    ensures
        open == !editing,
        final(clock).paused == open,
        final(clock).tick == old(clock).tick,
{
    clock.paused = !editing;
    !editing
}

/// `D`: the next authoring difficulty, unless unsaved tile edits block the
/// swap (the sync would clobber them).
pub fn cycle_difficulty(current: Difficulty, unsaved_tiles: bool) -> (d: Difficulty)
    ensures
        d == (if unsaved_tiles {
            current
        } else {
            difficulty_next(current)
        }),
{
    if unsaved_tiles {
        current
    } else {
        current.next()
    }
}

/// What `B` does to the selection.
#[derive(Clone, Copy, PartialEq, Eq, Debug, Structural)]
pub enum Possession {
    /// Hand the selection back to the puck at this position of the puck
    /// list; focus follows it to its arena.
    Release { slot: usize, arena: usize },
    /// Take over the boss at this position of the boss list.
    Possess { boss: usize },
    /// Nothing to do.
    Stay,
}

/// `B`: a possessed boss is released to the lowest-numbered puck (`pucks`
/// holds each puck's number and arena; the first of equal numbers wins); a
/// puck possesses the boss of the current arena (`bosses` holds each boss's
/// arena; the Guild House has none, so there nothing happens).
pub fn possess_toggle(holder_is_boss: bool, pucks: &Vec<(u32, usize)>, bosses: &Vec<usize>, current: usize) -> (r:
    Possession)
    ensures
        holder_is_boss && pucks@.len() == 0 ==> r == Possession::Stay,
        holder_is_boss && pucks@.len() > 0 ==> (r matches Possession::Release { slot, arena } && 0 <= slot
            < pucks@.len() && arena == pucks@[slot as int].1 && (forall|k: int|
            0 <= k < pucks@.len() ==> pucks@[slot as int].0 <= #[trigger] pucks@[k].0) && (forall|k: int|
            0 <= k < slot ==> pucks@[slot as int].0 < #[trigger] pucks@[k].0)),
        !holder_is_boss ==> match r {
            Possession::Possess { boss } => boss < bosses@.len() && bosses@[boss as int] == current && forall|k: int|
                0 <= k < boss ==> #[trigger] bosses@[k] != current,
            Possession::Stay => forall|k: int| 0 <= k < bosses@.len() ==> #[trigger] bosses@[k] != current,
            _ => false,
        },
{
    if holder_is_boss {
        if pucks.len() == 0 {
            return Possession::Stay;
        }
        let mut best: usize = 0;
        let mut i: usize = 1;
        while i < pucks.len()
            invariant
                1 <= i <= pucks@.len(),
                best < i,
                forall|k: int| 0 <= k < i ==> pucks@[best as int].0 <= #[trigger] pucks@[k].0,
                forall|k: int| 0 <= k < best ==> pucks@[best as int].0 < #[trigger] pucks@[k].0,
            decreases pucks@.len() - i,
        {
            if pucks[i].0 < pucks[best].0 {
                best = i;
            }
            i = i + 1;
        }
        Possession::Release { slot: best, arena: pucks[best].1 }
    } else {
        let mut k: usize = 0;
        while k < bosses.len()
            invariant
                !holder_is_boss,
                k <= bosses@.len(),
                forall|x: int| 0 <= x < k ==> #[trigger] bosses@[x] != current,
            decreases bosses@.len() - k,
        {
            if bosses[k] == current {
                return Possession::Possess { boss: k };
            }
            k = k + 1;
        }
        Possession::Stay
    }
}

/// The active difficulty as the author HUD shows it: its slug in capitals.
pub open spec fn shouted(d: Difficulty) -> Seq<char> {
    match d {
        Difficulty::Normal => "NORMAL"@,
        Difficulty::Heroic => "HEROIC"@,
        Difficulty::Mythic => "MYTHIC"@,
    }
}

/// A loaded score version as the HUD shows it: `vN`, or `--` for none.
pub open spec fn version_tag(v: Option<u32>) -> Seq<char> {
    match v {
        None => "--"@,
        Some(n) => seq!['v'] + decimal_digits(n as nat),
    }
}

/// The author HUD line: the difficulty, the arena, the boss and tile score
/// versions loaded for it, and while the tile editor is open its cursor cell
/// and `[mark_in -> mark_out]` range.
pub open spec fn author_hud_text(
    difficulty: Difficulty,
    arena: Arena,
    boss: Option<u32>,
    tiles: Option<u32>,
    editing: Option<TileEditor>,
) -> Seq<char> {
    "AUTHOR \u{b7} "@ + shouted(difficulty) + " \u{b7} "@ + arena_slug(arena) + " \u{b7} boss "@ + version_tag(boss)
        + " \u{b7} tiles "@ + version_tag(tiles) + match editing {
        None => Seq::empty(),
        Some(e) => " \u{b7} TILE ("@ + decimal_digits(e.cursor.x as nat) + ","@ + decimal_digits(e.cursor.y as nat)
            + ") ["@ + clock_text(e.mark_in) + "\u{2192}"@ + clock_text(e.mark_out) + "]"@,
    }
}

fn version_chars(v: Option<u32>) -> (c: Vec<char>)
    ensures
        c@ == version_tag(v),
{
    match v {
        None => chars_of("--"),
        Some(n) => {
            let mut c = vec!['v'];
            let mut digits = padded_digits(n, 1);
            proof {
                lemma_decimal_digits(n as nat);
                assert(digits@ =~= decimal_digits(n as nat));
            }
            c.append(&mut digits);
            c
        },
    }
}

/// The author HUD line for the current arena.
pub fn author_hud_line(
    difficulty: Difficulty,
    arena: Arena,
    boss: Option<u32>,
    tiles: Option<u32>,
    editing: Option<TileEditor>,
) -> (s: String)
    requires
        editing matches Some(e) ==> e.wf(),
    ensures
        s@ == author_hud_text(difficulty, arena, boss, tiles, editing),
{
    let mut c = chars_of("AUTHOR \u{b7} ");
    let shout = match difficulty {
        Difficulty::Normal => "NORMAL",
        Difficulty::Heroic => "HEROIC",
        Difficulty::Mythic => "MYTHIC",
    };
    c.append(&mut chars_of(shout));
    c.append(&mut chars_of(" \u{b7} "));
    c.append(&mut chars_of(arena.slug()));
    c.append(&mut chars_of(" \u{b7} boss "));
    c.append(&mut version_chars(boss));
    c.append(&mut chars_of(" \u{b7} tiles "));
    c.append(&mut version_chars(tiles));
    if let Some(e) = editing {
        let mut x = padded_digits(e.cursor.x as u32, 1);
        let mut y = padded_digits(e.cursor.y as u32, 1);
        proof {
            lemma_decimal_digits(e.cursor.x as nat);
            lemma_decimal_digits(e.cursor.y as nat);
            assert(x@ =~= decimal_digits(e.cursor.x as nat));
            assert(y@ =~= decimal_digits(e.cursor.y as nat));
        }
        c.append(&mut chars_of(" \u{b7} TILE ("));
        c.append(&mut x);
        c.append(&mut chars_of(","));
        c.append(&mut y);
        c.append(&mut chars_of(") ["));
        c.append(&mut clock_chars(e.mark_in));
        c.append(&mut chars_of("\u{2192}"));
        c.append(&mut clock_chars(e.mark_out));
        c.append(&mut chars_of("]"));
    }
    proof {
        assert(c@ =~= author_hud_text(difficulty, arena, boss, tiles, editing));
    }
    string_from_chars(&c)
}

} // verus!
