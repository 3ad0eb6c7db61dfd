//! Board tiles and their state. Every cell of every arena carries a
//! [`TileKind`]; [`ArenaTiles`] is an O(1) `(arena, col, row) → entity`
//! lookup filled as the grid spawns.

use vstd::prelude::*;

verus! {

/// The state of one board tile.
#[derive(Clone, Copy, PartialEq, Eq, Debug, Hash, Structural)]
pub enum TileKind {
    /// A plain illuminated dot.
    Normal,
    /// A glowing lava tile.
    Lava,
}

impl Default for TileKind {
    fn default() -> (k: TileKind)
        ensures
            k == TileKind::Normal,
    {
        TileKind::Normal
    }
}

/// A board tile: which arena/cell it is, and its current [`TileKind`].
#[derive(Clone, Copy, PartialEq, Eq, Debug, Structural)]
pub struct Tile {
    pub arena: u8,
    pub col: u8,
    pub row: u8,
    pub kind: TileKind,
}

/// Tiles across one arena.
pub const W: usize = 66;

/// Tiles down one arena.
pub const H: usize = 31;

/// Tiles on the whole board: nine arenas of `W × H`.
pub const TILE_COUNT: usize = 18414;

/// The id stored for a tile slot that has no entity yet.
pub const PLACEHOLDER: u64 = 0xffff_ffff_ffff_ffff;

/// The lookup slot of tile `(arena, col, row)`, if it is on the board:
/// arenas are blocks of `W × H` slots, columns blocks of `H`.
pub open spec fn tile_index(arena: int, col: int, row: int) -> Option<int> {
    if 0 <= arena < 9 && 0 <= col < W && 0 <= row < H {
        Some((arena * W + col) * H + row)
    } else {
        None
    }
}

/// O(1) lookup of a tile entity by `(arena, col, row)`, built as the grid
/// spawns. Entities are identified by `u64` ids.
pub struct ArenaTiles {
    entities: Vec<u64>,
}

impl View for ArenaTiles {
    type V = Seq<u64>;

    closed spec fn view(&self) -> Seq<u64> {
        self.entities@
    }
}

impl ArenaTiles {
    /// The lookup has exactly one slot per board tile.
    pub closed spec fn wf(&self) -> bool {
        self.entities@.len() == TILE_COUNT
    }

    /// A lookup with every slot unset.
    pub fn new() -> (t: ArenaTiles)
        ensures
            t@ == Seq::new(TILE_COUNT as nat, |i: int| PLACEHOLDER),
            t.wf(),
    {
        let mut entities: Vec<u64> = Vec::new();
        let mut i: usize = 0;
        while i < TILE_COUNT
            invariant
                i <= TILE_COUNT,
                entities@ == Seq::new(i as nat, |j: int| PLACEHOLDER),
            decreases TILE_COUNT - i,
        {
            entities.push(PLACEHOLDER);
            proof {
                assert(entities@ =~= Seq::new((i + 1) as nat, |j: int| PLACEHOLDER));
            }
            i = i + 1;
        }
        ArenaTiles { entities }
    }

    /// The slot of tile `(arena, col, row)`, or `None` if out of range.
    pub fn index(arena: usize, col: usize, row: usize) -> (i: Option<usize>)
        ensures
            i matches Some(k) ==> tile_index(arena as int, col as int, row as int) == Some(
                k as int,
            ),
            i is None ==> tile_index(arena as int, col as int, row as int) is None,
    {
        if arena < 9 && col < W && row < H {
            Some((arena * W + col) * H + row)
        } else {
            None
        }
    }

    /// Records the entity for tile `(arena, col, row)`; out-of-range tiles are
    /// ignored.
    pub fn insert(&mut self, arena: usize, col: usize, row: usize, entity: u64)
        requires
            old(self).wf(),
        ensures
            final(self).wf(),
            tile_index(arena as int, col as int, row as int) matches Some(k) ==> final(self)@
                == old(self)@.update(k, entity),
            tile_index(arena as int, col as int, row as int) is None ==> final(self)@ == old(
                self,
            )@,
            final(self)@.len() == TILE_COUNT,
    {
        proof {
            law_tile_index_is_a_slot(arena as int, col as int, row as int);
        }
        if let Some(i) = Self::index(arena, col, row) {
            self.entities.set(i, entity);
        }
    }

    /// The tile entity at `(arena, col, row)`, or `None` if out of range or
    /// unset.
    pub fn get(&self, arena: usize, col: usize, row: usize) -> (e: Option<u64>)
        requires
            self.wf(),
        ensures
            e == (match tile_index(arena as int, col as int, row as int) {
                Some(k) => if self@[k] != PLACEHOLDER {
                    Some(self@[k])
                } else {
                    None
                },
                None => None,
            }),
    {
        proof {
            law_tile_index_is_a_slot(arena as int, col as int, row as int);
        }
        match Self::index(arena, col, row) {
            Some(i) => {
                let e = self.entities[i];
                if e != PLACEHOLDER {
                    Some(e)
                } else {
                    None
                }
            },
            None => None,
        }
    }
}

/// Every on-board tile has a slot below [`TILE_COUNT`].
pub proof fn law_tile_index_is_a_slot(arena: int, col: int, row: int)
    ensures
        tile_index(arena, col, row) matches Some(k) ==> 0 <= k < TILE_COUNT,
{
    if tile_index(arena, col, row) is Some {
        assert(0 <= (arena * 66 + col) * 31 + row <= (8 * 66 + 65) * 31 + 30) by (nonlinear_arith)
            requires
                0 <= arena < 9,
                0 <= col < 66,
                0 <= row < 31,
        ;
    }
}

/// Distinct tiles never share a slot.
pub proof fn law_tile_index_is_unique(a1: int, c1: int, r1: int, a2: int, c2: int, r2: int)
    requires
        tile_index(a1, c1, r1) is Some,
        tile_index(a1, c1, r1) == tile_index(a2, c2, r2),
    ensures
        a1 == a2 && c1 == c2 && r1 == r2,
{
    let k = (a1 * 66 + c1) * 31 + r1;
    assert(a1 == a2 && c1 == c2 && r1 == r2) by (nonlinear_arith)
        requires
            0 <= a1 < 9,
            0 <= c1 < 66,
            0 <= r1 < 31,
            0 <= a2 < 9,
            0 <= c2 < 66,
            0 <= r2 < 31,
            (a1 * 66 + c1) * 31 + r1 == (a2 * 66 + c2) * 31 + r2,
    ;
}

/// Looking a tile up right after recording it gives back its entity, and
/// recording one tile leaves every other tile's lookup alone.
pub proof fn law_lookup_reads_back_insert(
    before: Seq<u64>,
    arena: int,
    col: int,
    row: int,
    entity: u64,
    other_arena: int,
    other_col: int,
    other_row: int,
)
    requires
        before.len() == TILE_COUNT,
        tile_index(arena, col, row) is Some,
        tile_index(other_arena, other_col, other_row) is Some,
        !(other_arena == arena && other_col == col && other_row == row),
    ensures
        before.update(tile_index(arena, col, row)->0, entity)[tile_index(arena, col, row)->0]
            == entity,
        before.update(tile_index(arena, col, row)->0, entity)[tile_index(
            other_arena,
            other_col,
            other_row,
        )->0] == before[tile_index(other_arena, other_col, other_row)->0],
{
    law_tile_index_is_a_slot(arena, col, row);
    law_tile_index_is_a_slot(other_arena, other_col, other_row);
    if tile_index(arena, col, row) == tile_index(other_arena, other_col, other_row) {
        law_tile_index_is_unique(arena, col, row, other_arena, other_col, other_row);
    }
}

} // verus!
