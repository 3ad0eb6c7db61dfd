//! Board geometry for the 3×3 arena grid: one arena is `GRID_W × GRID_H`
//! tiles, nine arenas tile a `3 × 3` world indexed row-major.

use vstd::prelude::*;

verus! {

/// Tiles across one arena.
pub const GRID_W: i32 = 66;

/// Tiles down one arena.
pub const GRID_H: i32 = 31;

/// The 3×3 grid holds nine arenas.
pub const ARENAS: usize = 9;

/// Largest valid tile column (`GRID_W - 1`).
pub const MAX_COL: i32 = 65;

/// Largest valid tile row (`GRID_H - 1`).
pub const MAX_ROW: i32 = 30;

/// An integer tile-space vector: a tile coordinate or a step between tiles.
#[derive(Clone, Copy, PartialEq, Eq, Debug, Structural)]
pub struct IVec2 {
    pub x: i32,
    pub y: i32,
}

impl IVec2 {
    pub fn new(x: i32, y: i32) -> (v: IVec2)
        ensures
            v.x == x,
            v.y == y,
    {
        IVec2 { x, y }
    }
}

/// `v` clamped into `[lo, hi]`.
pub open spec fn clamp_spec(v: int, lo: int, hi: int) -> int {
    if v < lo {
        lo
    } else if v > hi {
        hi
    } else {
        v
    }
}

/// Clamps `v` into `[lo, hi]` (with `lo <= hi`).
pub fn clamp_i32(v: i32, lo: i32, hi: i32) -> (r: i32)
    requires
        lo <= hi,
    ensures
        r == clamp_spec(v as int, lo as int, hi as int),
{
    if v < lo {
        lo
    } else if v > hi {
        hi
    } else {
        v
    }
}

/// A board character's tile within its arena. It steps one tile at a time and
/// always stays on the board.
#[derive(Clone, Copy, PartialEq, Eq, Debug, Structural)]
pub struct TileMover {
    pub col: i32,
    pub row: i32,
}

impl TileMover {
    pub fn new(col: i32, row: i32) -> (m: TileMover)
        ensures
            m.col == col,
            m.row == row,
    {
        TileMover { col, row }
    }

    /// Parks this mover on tile `(col, row)`, clamped to the arena.
    pub fn snap_to(&mut self, col: i32, row: i32)
        ensures
            final(self).col == clamp_spec(col as int, 0, MAX_COL as int),
            final(self).row == clamp_spec(row as int, 0, MAX_ROW as int),
    {
        self.col = clamp_i32(col, 0, MAX_COL);
        self.row = clamp_i32(row, 0, MAX_ROW);
    }

    /// Steps this mover by `delta` tiles, clamped to the arena. The sum must
    /// not overflow (a sim overflow is a bug, never a wrap).
    pub fn step(&mut self, delta: IVec2)
        requires
            i32::MIN <= old(self).col + delta.x <= i32::MAX,
            i32::MIN <= old(self).row + delta.y <= i32::MAX,
        ensures
            final(self).col == clamp_spec(old(self).col + delta.x, 0, MAX_COL as int),
            final(self).row == clamp_spec(old(self).row + delta.y, 0, MAX_ROW as int),
    {
        let col = self.col + delta.x;
        let row = self.row + delta.y;
        self.snap_to(col, row);
    }
}

/// The arrow-key step for this frame from the keys just pressed: one tile
/// per axis per press (a held key does not repeat).
pub fn arrow_delta(right: bool, left: bool, up: bool, down: bool) -> (d: IVec2)
    ensures
        d.x == (if right { 1int } else { 0 }) - (if left { 1int } else { 0 }),
        d.y == (if up { 1int } else { 0 }) - (if down { 1int } else { 0 }),
{
    let x: i32 = (if right { 1 } else { 0 }) - (if left { 1 } else { 0 });
    let y: i32 = (if up { 1 } else { 0 }) - (if down { 1 } else { 0 });
    IVec2 { x, y }
}

/// Whether this frame's arrow keys step anywhere (opposite keys cancel).
pub fn arrow_pressed(right: bool, left: bool, up: bool, down: bool) -> (b: bool)
    ensures
        b == (right != left || up != down),
{
    let d = arrow_delta(right, left, up, down);
    d.x != 0 || d.y != 0
}

/// Steps every mover by `delta`, each clamped to its arena.
pub fn step_movers(movers: &mut Vec<TileMover>, delta: IVec2)
    requires
        forall|i: int|
            0 <= i < old(movers)@.len() ==> i32::MIN <= #[trigger] old(movers)@[i].col + delta.x <= i32::MAX
                && i32::MIN <= old(movers)@[i].row + delta.y <= i32::MAX,
    ensures
        final(movers)@.len() == old(movers)@.len(),
        forall|i: int|
            0 <= i < old(movers)@.len() ==> #[trigger] final(movers)@[i].col == clamp_spec(
                old(movers)@[i].col + delta.x,
                0,
                MAX_COL as int,
            ) && final(movers)@[i].row == clamp_spec(old(movers)@[i].row + delta.y, 0, MAX_ROW as int),
{
    let mut i: usize = 0;
    while i < movers.len()
        invariant
            i <= movers@.len(),
            movers@.len() == old(movers)@.len(),
            forall|k: int| i <= k < movers@.len() ==> #[trigger] movers@[k] == old(movers)@[k],
            forall|k: int|
                0 <= k < old(movers)@.len() ==> i32::MIN <= #[trigger] old(movers)@[k].col + delta.x <= i32::MAX
                    && i32::MIN <= old(movers)@[k].row + delta.y <= i32::MAX,
            forall|k: int|
                0 <= k < i ==> #[trigger] movers@[k].col == clamp_spec(
                    old(movers)@[k].col + delta.x,
                    0,
                    MAX_COL as int,
                ) && movers@[k].row == clamp_spec(old(movers)@[k].row + delta.y, 0, MAX_ROW as int),
        decreases movers@.len() - i,
    {
        let mut m = movers[i];
        m.step(delta);
        movers.set(i, m);
        i = i + 1;
    }
}

} // verus!
