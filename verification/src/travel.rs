//! Hero travel between arenas: stepping past an arena's edge enters the
//! adjacent arena on the opposite edge; the outer border of the 3×3 world
//! does not wrap.

use vstd::prelude::*;

use crate::grid::{clamp_i32, clamp_spec, IVec2, TileMover, MAX_COL, MAX_ROW};
use crate::recording::{DraftTimeline, Prompt, RecordingState};
use crate::timeline::{Action, TimelineEvent};

verus! {

/// Where stepping `(dx, dy)` from `(col, row)` lands when it crosses the edge
/// of arena `index`: the adjacent arena and the entry tile on its opposite
/// edge, or `None` inside the arena or at the outer border. Within an arena
/// `+row` is up, so the arena above sits at `index − 3`.
pub open spec fn adjacent_entry_spec(index: int, col: int, row: int, dx: int, dy: int) -> Option<
    (int, int, int),
> {
    let (tx, ty) = (col + dx, row + dy);
    let (grid_col, grid_row) = (index % 3, index / 3);
    if tx > MAX_COL && grid_col < 2 {
        Some((index + 1, 0, clamp_spec(ty, 0, MAX_ROW as int)))
    } else if tx < 0 && grid_col > 0 {
        Some((index - 1, MAX_COL as int, clamp_spec(ty, 0, MAX_ROW as int)))
    } else if ty > MAX_ROW && grid_row > 0 {
        Some((index - 3, clamp_spec(tx, 0, MAX_COL as int), 0))
    } else if ty < 0 && grid_row < 2 {
        Some((index + 3, clamp_spec(tx, 0, MAX_COL as int), MAX_ROW as int))
    } else {
        None
    }
}

/// Where stepping `delta` from `(col, row)` lands when it crosses the edge of
/// arena `index` (`0..9`): `(adjacent arena, entry col, entry row)` on the
/// opposite edge, or `None` at the outer border of the world (movement clamps;
/// no wrap). The step must not overflow.
pub fn adjacent_entry(index: usize, col: i32, row: i32, delta: IVec2) -> (r: Option<(usize, i32, i32)>)
    requires
        index < 9,
        i32::MIN <= col + delta.x <= i32::MAX,
        i32::MIN <= row + delta.y <= i32::MAX,
    ensures
        r matches Some((i, c, w)) ==> adjacent_entry_spec(
            index as int,
            col as int,
            row as int,
            delta.x as int,
            delta.y as int,
        ) == Some((i as int, c as int, w as int)),
        r is None ==> adjacent_entry_spec(
            index as int,
            col as int,
            row as int,
            delta.x as int,
            delta.y as int,
        ) is None,
{
    let tx = col + delta.x;
    let ty = row + delta.y;
    let grid_col = index % 3;
    let grid_row = index / 3;
    if tx > MAX_COL && grid_col < 2 {
        Some((index + 1, 0, clamp_i32(ty, 0, MAX_ROW)))
    } else if tx < 0 && grid_col > 0 {
        Some((index - 1, MAX_COL, clamp_i32(ty, 0, MAX_ROW)))
    } else if ty > MAX_ROW && grid_row > 0 {
        Some((index - 3, clamp_i32(tx, 0, MAX_COL), 0))
    } else if ty < 0 && grid_row < 2 {
        Some((index + 3, clamp_i32(tx, 0, MAX_COL), MAX_ROW))
    } else {
        None
    }
}

/// Edge walks are symmetric: entering a neighbour and stepping straight back
/// over the edge just crossed returns to the arena walked out of, on the
/// tile-column/row the walk kept.
pub proof fn law_edge_walk_returns(index: int, col: int, row: int, dx: int, dy: int)
    requires
        0 <= index < 9,
        0 <= col <= MAX_COL,
        0 <= row <= MAX_ROW,
        (dx == 1 && dy == 0) || (dx == -1 && dy == 0) || (dx == 0 && dy == 1) || (dx == 0 && dy
            == -1),
        adjacent_entry_spec(index, col, row, dx, dy) is Some,
    ensures
        ({
            let (j, c, w) = adjacent_entry_spec(index, col, row, dx, dy)->0;
            &&& 0 <= j < 9
            &&& 0 <= c <= MAX_COL
            &&& 0 <= w <= MAX_ROW
            &&& adjacent_entry_spec(j, c, w, -dx, -dy) == Some((index, col, row))
        }),
{
}

/// Steps that stay inside the arena never cross into another.
pub proof fn law_inner_steps_stay(index: int, col: int, row: int, dx: int, dy: int)
    requires
        0 <= col + dx <= MAX_COL,
        0 <= row + dy <= MAX_ROW,
    ensures
        adjacent_entry_spec(index, col, row, dx, dy) is None,
{
}

/// What an arrow press on the selected character came to.
#[derive(Clone, Copy, PartialEq, Eq, Debug, Structural)]
pub enum MoveOutcome {
    /// Ask first (the step did not happen).
    Ask(Prompt),
    /// The step happened inside the arena (clamped at the world's border).
    Stepped,
    /// The step crosses into arena `to`: the hero now stands on the entry
    /// tile; the caller re-parents it and, with a prompt, asks it.
    Walked { to: usize, ask: Option<Prompt> },
}

/// The step lands inside the arena.
pub open spec fn inside_spec(col: int, row: int, delta: IVec2) -> bool {
    0 <= col + delta.x <= MAX_COL && 0 <= row + delta.y <= MAX_ROW
}

/// Enters arena `to` on tile `(col, row)`; a hero with a staff cached for
/// that arena is asked whether to fold it back in.
pub fn edge_walk(mover: &mut TileMover, col: i32, row: i32, has_cache: bool) -> (ask: Option<Prompt>)
    ensures
        final(mover).col == clamp_spec(col as int, 0, MAX_COL as int),
        final(mover).row == clamp_spec(row as int, 0, MAX_ROW as int),
        ask == (if has_cache {
            Some(Prompt::ReplayHere)
        } else {
            None
        }),
{
    mover.snap_to(col, row);
    if has_cache {
        Some(Prompt::ReplayHere)
    } else {
        None
    }
}

/// An arrow press on the selected character of arena `index`. A ghost is
/// never driven: the player is asked to break it out. A step inside the
/// arena (or into the world's border, or by a boss, which never leaves its
/// arena) applies, and while recording it is what the draft records. A step
/// across an edge mid-recording asks first; otherwise the hero walks into
/// the neighbouring arena (`has_cache_at` says whether it has a staff there).
pub fn move_selected(
    mover: &mut TileMover,
    draft: &mut DraftTimeline,
    state: RecordingState,
    is_ghost: bool,
    is_boss: bool,
    index: usize,
    delta: IVec2,
    tick: u32,
    has_cache_at: &[bool; 9],
) -> (out: MoveOutcome)
    requires
        index < 9,
        i32::MIN <= old(mover).col + delta.x <= i32::MAX,
        i32::MIN <= old(mover).row + delta.y <= i32::MAX,
    ensures
        final(draft).start == old(draft).start,
        ({
            let m = *old(mover);
            let crossing = if inside_spec(m.col as int, m.row as int, delta) || is_boss {
                None
            } else {
                adjacent_entry_spec(index as int, m.col as int, m.row as int, delta.x as int, delta.y as int)
            };
            if is_ghost {
                out == MoveOutcome::Ask(Prompt::BreakOut) && *final(mover) == m && final(draft).events@
                    == old(draft).events@
            } else {
                match crossing {
                    None => {
                        &&& out == MoveOutcome::Stepped
                        &&& final(mover).col == clamp_spec(m.col + delta.x, 0, MAX_COL as int)
                        &&& final(mover).row == clamp_spec(m.row + delta.y, 0, MAX_ROW as int)
                        &&& final(draft).events@ == if state == RecordingState::Recording {
                            old(draft).events@.push(TimelineEvent { tick, action: Action::Move(delta) })
                        } else {
                            old(draft).events@
                        }
                    },
                    Some((to, c, w)) => if state == RecordingState::Recording {
                        &&& out == MoveOutcome::Ask(Prompt::LeaveRecording)
                        &&& *final(mover) == m
                        &&& final(draft).events@ == old(draft).events@
                    } else {
                        &&& out == (MoveOutcome::Walked {
                            to: to as usize,
                            ask: if has_cache_at[to] {
                                Some(Prompt::ReplayHere)
                            } else {
                                None
                            },
                        })
                        &&& final(mover).col == c && final(mover).row == w
                        &&& final(draft).events@ == old(draft).events@
                    },
                }
            }
        }),
{
    if is_ghost {
        return MoveOutcome::Ask(Prompt::BreakOut);
    }
    let tx = mover.col + delta.x;
    let ty = mover.row + delta.y;
    let inside = 0 <= tx && tx <= MAX_COL && 0 <= ty && ty <= MAX_ROW;
    let crossing = if inside || is_boss {
        None
    } else {
        adjacent_entry(index, mover.col, mover.row, delta)
    };
    let recording = match state {
        RecordingState::Recording => true,
        _ => false,
    };
    match crossing {
        None => {
            mover.step(delta);
            if recording {
                draft.events.push(TimelineEvent { tick, action: Action::Move(delta) });
            }
            MoveOutcome::Stepped
        },
        Some((to, c, w)) => {
            if recording {
                MoveOutcome::Ask(Prompt::LeaveRecording)
            } else {
                proof {
                    assert(0 <= c <= MAX_COL && 0 <= w <= MAX_ROW);
                    assert(to < 9);
                }
                let ask = edge_walk(mover, c, w, has_cache_at[to]);
                MoveOutcome::Walked { to, ask }
            }
        },
    }
}

/// `]`/`[`: the next or previous arena, cyclic over the nine (both keys
/// cancel out).
pub fn paginate(current: usize, next: bool, prev: bool) -> (r: usize)
    requires
        current < 9,
    ensures
        r == ((current + (if next {
            1int
        } else {
            0int
        }) - (if prev {
            1int
        } else {
            0int
        })) % 9),
        r < 9,
{
    if next && !prev {
        if current == 8 {
            0
        } else {
            current + 1
        }
    } else if prev && !next {
        if current == 0 {
            8
        } else {
            current - 1
        }
    } else {
        current
    }
}

/// `Tab`: the index of the next guildmaster puck, cyclic over `count`.
pub fn next_puck(here: usize, count: usize) -> (r: usize)
    requires
        count > 0,
        here < usize::MAX,
    ensures
        r == (here + 1) % (count as int),
        r < count,
{
    (here + 1) % count
}

} // verus!
