//! Applying a tile script to an arena's board at its clock's tick: the
//! scripted cells take their keyframed kind; cells the script lets go of
//! revert to whatever they wore before the script claimed them (a tile
//! flipped by hand meanwhile is not the script's to undo); an unchanged
//! delta changes nothing. [`TileBoard`] holds every arena's board.

use vstd::prelude::*;

use crate::grid::TileMover;
use crate::tile::TileKind;
use crate::timeline::copy_vec;
use crate::tile_delta::{
    applied_cells, applied_entries, applied_get, applied_insert, applied_new, delta_cells,
    delta_entries, delta_get, none_applied, AppliedMap, TileDelta,
};
use crate::tile_script::{desired, desired_spec, AppliedCell, TileKeyframe};

verus! {

/// Columns of one arena's board.
pub const BOARD_W: usize = 66;

/// Rows of one arena's board.
pub const BOARD_H: usize = 31;

/// Tiles of one arena's board (`BOARD_W * BOARD_H`).
pub const BOARD_LEN: usize = 2046;

/// Where cell `(col, row)` sits in a row-major board.
pub open spec fn slot(c: (u8, u8)) -> int {
    c.1 * BOARD_W + c.0
}

/// The cell is on the board.
pub open spec fn on_board(c: (u8, u8)) -> bool {
    c.0 < BOARD_W && c.1 < BOARD_H
}

/// The kind a board shows at a cell (`Normal` off the board, as a missing
/// tile reads).
pub open spec fn kind_at(b: Seq<TileKind>, c: (u8, u8)) -> TileKind {
    if on_board(c) && slot(c) < b.len() {
        b[slot(c)]
    } else {
        TileKind::Normal
    }
}

/// What the script has claimed after the step towards `want`: exactly the
/// wanted cells, each with its wanted kind and the kind it wore before the
/// script first claimed it.
pub open spec fn next_applied(
    want: Map<(u8, u8), TileKind>,
    applied: Map<(u8, u8), AppliedCell>,
    b: Seq<TileKind>,
) -> Map<(u8, u8), AppliedCell> {
    Map::new(
        |c: (u8, u8)| want.dom().contains(c),
        |c: (u8, u8)|
            AppliedCell {
                kind: want[c],
                prior: if applied.dom().contains(c) {
                    applied[c].prior
                } else {
                    kind_at(b, c)
                },
            },
    )
}

/// A board cell's kind after the step: a wanted cell wears its kind (left
/// alone when the script already put that kind there); a released cell gets
/// its prior kind back; every other cell is untouched.
pub open spec fn next_kind(
    want: Map<(u8, u8), TileKind>,
    applied: Map<(u8, u8), AppliedCell>,
    b: Seq<TileKind>,
    c: (u8, u8),
) -> TileKind {
    if want.dom().contains(c) {
        if applied.dom().contains(c) && applied[c].kind == want[c] {
            kind_at(b, c)
        } else {
            want[c]
        }
    } else if applied.dom().contains(c) {
        applied[c].prior
    } else {
        kind_at(b, c)
    }
}

/// Reads the board at a cell.
fn board_get(board: &Vec<TileKind>, c: (u8, u8)) -> (k: TileKind)
    ensures
        k == kind_at(board@, c),
{
    if (c.0 as usize) < BOARD_W && (c.1 as usize) < BOARD_H {
        let s = (c.1 as usize) * BOARD_W + (c.0 as usize);
        if s < board.len() {
            return board[s];
        }
    }
    TileKind::Normal
}

/// Sets the board at a cell (off the board: nothing to set).
fn board_set(board: &mut Vec<TileKind>, c: (u8, u8), k: TileKind)
    ensures
        final(board)@.len() == old(board)@.len(),
        on_board(c) && slot(c) < old(board)@.len() ==> final(board)@ == old(board)@.update(slot(c), k),
        !(on_board(c) && slot(c) < old(board)@.len()) ==> final(board)@ == old(board)@,
{
    if (c.0 as usize) < BOARD_W && (c.1 as usize) < BOARD_H {
        let s = (c.1 as usize) * BOARD_W + (c.0 as usize);
        if s < board.len() {
            board.set(s, k);
        }
    }
}

/// Distinct on-board cells sit in distinct slots.
pub proof fn lemma_slot_injective(a: (u8, u8), b: (u8, u8))
    requires
        on_board(a),
        on_board(b),
        a != b,
    ensures
        slot(a) != slot(b),
{
}

/// Plays one step of an arena's tile script: the board and the script's
/// claimed cells move to what `want` (the script's delta at this tick) asks.
pub fn play_tile_script(want: &TileDelta, applied: &mut AppliedMap, board: &mut Vec<TileKind>)
    ensures
        final(board)@.len() == old(board)@.len(),
        applied_cells(*final(applied)) == next_applied(
            delta_cells(*want),
            applied_cells(*old(applied)),
            old(board)@,
        ),
        forall|c: (u8, u8)|
            on_board(c) && slot(c) < old(board)@.len() ==> #[trigger] kind_at(final(board)@, c)
                == next_kind(delta_cells(*want), applied_cells(*old(applied)), old(board)@, c),
{
    let ghost w = delta_cells(*want);
    let ghost a = applied_cells(*applied);
    let ghost b0 = board@;
    // Released cells go back to their pre-script kind.
    let old_entries = applied_entries(applied);
    let mut i: usize = 0;
    while i < old_entries.len()
        invariant
            i <= old_entries@.len(),
            w == delta_cells(*want),
            a == applied_cells(*applied),
            board@.len() == b0.len(),
            forall|x: int| 0 <= x < old_entries@.len() ==> a.dom().contains(#[trigger] old_entries@[x].0)
                && a[old_entries@[x].0] == old_entries@[x].1,
            forall|x: int, y: int| 0 <= x < y < old_entries@.len() ==> old_entries@[x].0 != old_entries@[y].0,
            forall|c: (u8, u8)|
                on_board(c) && slot(c) < b0.len() ==> #[trigger] kind_at(board@, c) == if !w.dom().contains(c)
                    && exists|x: int| 0 <= x < i && old_entries@[x].0 == c {
                    a[c].prior
                } else {
                    kind_at(b0, c)
                },
        decreases old_entries@.len() - i,
    {
        let (c, cell) = old_entries[i];
        let ghost before = board@;
        if delta_get(want, c).is_none() {
            board_set(board, c, cell.prior);
        }
        proof {
            assert forall|d: (u8, u8)| on_board(d) && slot(d) < b0.len() implies #[trigger] kind_at(board@, d)
                == if !w.dom().contains(d) && exists|x: int| 0 <= x < i + 1 && old_entries@[x].0 == d {
                a[d].prior
            } else {
                kind_at(b0, d)
            } by {
                if d != c {
                    if on_board(c) {
                        lemma_slot_injective(c, d);
                    }
                    assert(kind_at(board@, d) == kind_at(before, d));
                    if exists|x: int| 0 <= x < i + 1 && old_entries@[x].0 == d {
                        let x = choose|x: int| 0 <= x < i + 1 && old_entries@[x].0 == d;
                        assert(x != i);
                    }
                } else {
                    assert(old_entries@[i as int].0 == d);
                    if exists|x: int| 0 <= x < i && old_entries@[x].0 == d {
                        let x = choose|x: int| 0 <= x < i && old_entries@[x].0 == d;
                        assert(old_entries@[x].0 != old_entries@[i as int].0);
                    }
                }
            }
        }
        i = i + 1;
    }
    // Wanted cells take their kind, remembering what they wore before.
    let entries = delta_entries(want);
    let mut next = applied_new();
    let ghost b1 = board@;
    let mut j: usize = 0;
    while j < entries.len()
        invariant
            j <= entries@.len(),
            w == delta_cells(*want),
            a == applied_cells(*applied),
            board@.len() == b0.len(),
            forall|x: int| 0 <= x < entries@.len() ==> w.dom().contains(#[trigger] entries@[x].0)
                && w[entries@[x].0] == entries@[x].1,
            forall|x: int, y: int| 0 <= x < y < entries@.len() ==> entries@[x].0 != entries@[y].0,
            forall|c: (u8, u8)|
                on_board(c) && slot(c) < b0.len() ==> #[trigger] kind_at(b1, c) == if !w.dom().contains(c)
                    && a.dom().contains(c) {
                    a[c].prior
                } else {
                    kind_at(b0, c)
                },
            forall|c: (u8, u8)|
                on_board(c) && slot(c) < b0.len() ==> #[trigger] kind_at(board@, c) == if exists|x: int|
                    0 <= x < j && entries@[x].0 == c {
                    next_kind(w, a, b0, c)
                } else {
                    kind_at(b1, c)
                },
            applied_cells(next) == Map::new(
                |c: (u8, u8)| exists|x: int| 0 <= x < j && entries@[x].0 == c,
                |c: (u8, u8)| next_applied(w, a, b0)[c],
            ),
        decreases entries@.len() - j,
    {
        let (c, k) = entries[j];
        let ghost before = board@;
        let ghost next_before = applied_cells(next);
        let prior = match applied_get(applied, c) {
            Some(old_cell) => {
                if old_cell.kind != k {
                    board_set(board, c, k);
                }
                old_cell.prior
            },
            None => {
                let p = board_get(board, c);
                board_set(board, c, k);
                p
            },
        };
        applied_insert(&mut next, c, AppliedCell { kind: k, prior });
        proof {
            // Before this step, `c`'s board cell still held its pre-step kind.
            if on_board(c) && slot(c) < b0.len() {
                if exists|x: int| 0 <= x < j && entries@[x].0 == c {
                    let x = choose|x: int| 0 <= x < j && entries@[x].0 == c;
                    assert(entries@[x].0 != entries@[j as int].0);
                }
                assert(kind_at(before, c) == kind_at(b1, c));
                assert(kind_at(b1, c) == kind_at(b0, c));
            }
            assert forall|d: (u8, u8)| on_board(d) && slot(d) < b0.len() implies #[trigger] kind_at(board@, d)
                == if exists|x: int| 0 <= x < j + 1 && entries@[x].0 == d {
                next_kind(w, a, b0, d)
            } else {
                kind_at(b1, d)
            } by {
                if d != c {
                    if on_board(c) {
                        lemma_slot_injective(c, d);
                    }
                    assert(kind_at(board@, d) == kind_at(before, d));
                    if exists|x: int| 0 <= x < j + 1 && entries@[x].0 == d {
                        let x = choose|x: int| 0 <= x < j + 1 && entries@[x].0 == d;
                        assert(x != j);
                    }
                } else {
                    assert(entries@[j as int].0 == d);
                }
            }
            assert(applied_cells(next) =~= Map::new(
                |c: (u8, u8)| exists|x: int| 0 <= x < j + 1 && entries@[x].0 == c,
                |c: (u8, u8)| next_applied(w, a, b0)[c],
            )) by {
                assert forall|d: (u8, u8)| (exists|x: int| 0 <= x < j + 1 && entries@[x].0 == d) == (
                next_before.dom().contains(d) || d == c) by {
                    if d == c {
                        assert(entries@[j as int].0 == d);
                    }
                    if exists|x: int| 0 <= x < j + 1 && entries@[x].0 == d {
                        let x = choose|x: int| 0 <= x < j + 1 && entries@[x].0 == d;
                        if x < j {
                            assert(next_before.dom().contains(d));
                        }
                    }
                }
                if !on_board(c) || slot(c) >= b0.len() {
                    assert(kind_at(before, c) == kind_at(b0, c));
                }
            }
        }
        j = j + 1;
    }
    proof {
        assert(applied_cells(next) =~= next_applied(w, a, b0)) by {
            assert forall|d: (u8, u8)| (exists|x: int| 0 <= x < entries@.len() && entries@[x].0 == d) == w.dom().contains(d) by {
                if w.dom().contains(d) {
                    let x = choose|x: int| 0 <= x < entries@.len() && #[trigger] entries@[x].0 == d;
                }
            }
        }
        assert forall|c: (u8, u8)| on_board(c) && slot(c) < b0.len() implies #[trigger] kind_at(board@, c)
            == next_kind(w, a, b0, c) by {
            if w.dom().contains(c) {
                let x = choose|x: int| 0 <= x < entries@.len() && #[trigger] entries@[x].0 == c;
            } else if a.dom().contains(c) {
                let x = choose|x: int| 0 <= x < old_entries@.len() && #[trigger] old_entries@[x].0 == c;
                assert(exists|y: int| 0 <= y < old_entries@.len() && old_entries@[y].0 == c);
            }
        }
    }
    *applied = next;
}

/// Letting go restores: when the script asks for nothing, every claimed cell
/// gets back the kind it wore before the script claimed it, every other cell
/// keeps its kind, and nothing stays claimed.
pub proof fn law_releasing_restores_priors(
    applied: Map<(u8, u8), AppliedCell>,
    b: Seq<TileKind>,
    c: (u8, u8),
)
    ensures
        next_applied(Map::empty(), applied, b) == Map::<(u8, u8), AppliedCell>::empty(),
        next_kind(Map::empty(), applied, b, c) == if applied.dom().contains(c) {
            applied[c].prior
        } else {
            kind_at(b, c)
        },
{
    assert(next_applied(Map::empty(), applied, b) =~= Map::<(u8, u8), AppliedCell>::empty());
}

/// Playing the same delta twice changes nothing the second time: the board
/// already wears what the script asks and the claims stay as they are.
pub proof fn law_replaying_a_delta_is_idempotent(
    want: Map<(u8, u8), TileKind>,
    applied: Map<(u8, u8), AppliedCell>,
    b: Seq<TileKind>,
    c: (u8, u8),
)
    requires
        on_board(c),
        slot(c) < b.len(),
    ensures
        ({
            let a1 = next_applied(want, applied, b);
            let b1 = b.update(slot(c), next_kind(want, applied, b, c));
            &&& next_applied(want, a1, b1) == a1
            &&& next_kind(want, a1, b1, c) == kind_at(b1, c)
        }),
{
    let a1 = next_applied(want, applied, b);
    let b1 = b.update(slot(c), next_kind(want, applied, b, c));
    assert(next_applied(want, a1, b1) =~= a1);
}

/// An arena's live tile script: the keyframes driving its board, the cells
/// it currently holds (with what they wore before, so it reverts exactly what
/// it touched), and whether the keyframes were edited since the last save or
/// load (an unsaved script is never overwritten by the score sync).
#[derive(Debug)]
pub struct TileScript {
    pub keyframes: Vec<TileKeyframe>,
    pub applied: AppliedMap,
    pub dirty: bool,
}

impl Default for TileScript {
    fn default() -> (s: TileScript)
        ensures
            s.keyframes@ == Seq::<TileKeyframe>::empty(),
            applied_cells(s.applied) == none_applied(),
            !s.dirty,
    {
        TileScript { keyframes: Vec::new(), applied: applied_new(), dirty: false }
    }
}

impl TileScript {
    /// One playback step at the arena clock's `tick`: the board moves to
    /// what the keyframes ask for now (`waves[i]` holds keyframe `i`'s wave
    /// centres at this tick).
    pub fn play(&mut self, tick: u32, waves: &[Vec<i32>], board: &mut Vec<TileKind>)
        ensures
            final(self).keyframes@ == old(self).keyframes@,
            final(self).dirty == old(self).dirty,
            final(board)@.len() == old(board)@.len(),
            applied_cells(final(self).applied) == next_applied(
                desired_spec(old(self).keyframes@, tick, waves@.map_values(|v: Vec<i32>| v@)),
                applied_cells(old(self).applied),
                old(board)@,
            ),
            forall|c: (u8, u8)|
                on_board(c) && slot(c) < old(board)@.len() ==> #[trigger] kind_at(final(board)@, c)
                    == next_kind(
                    desired_spec(old(self).keyframes@, tick, waves@.map_values(|v: Vec<i32>| v@)),
                    applied_cells(old(self).applied),
                    old(board)@,
                    c,
                ),
    {
        let want = desired(self.keyframes.as_slice(), tick, waves);
        play_tile_script(&want, &mut self.applied, board);
    }
}

/// The kind of every tile on the board: one row-major board per arena (a
/// cell `(col, row)` sits at `row * BOARD_W + col`), nine arenas in grid
/// order.
pub struct TileBoard {
    arenas: Vec<Vec<TileKind>>,
}

impl View for TileBoard {
    type V = Seq<Seq<TileKind>>;

    closed spec fn view(&self) -> Seq<Seq<TileKind>> {
        self.arenas@.map_values(|b: Vec<TileKind>| b@)
    }
}

/// Tile `(col, row)` is on an arena's board.
pub open spec fn in_arena(col: int, row: int) -> bool {
    0 <= col < BOARD_W && 0 <= row < BOARD_H
}

impl TileBoard {
    /// Nine boards of `BOARD_LEN` tiles each.
    pub open spec fn wf(&self) -> bool {
        &&& self@.len() == 9
        &&& forall|a: int| 0 <= a < 9 ==> (#[trigger] self@[a]).len() == BOARD_LEN
    }

    /// Every tile of every arena `Normal`.
    pub fn new() -> (b: TileBoard)
        ensures
            b.wf(),
            forall|a: int, i: int| 0 <= a < 9 && 0 <= i < BOARD_LEN ==> #[trigger] b@[a][i] == TileKind::Normal,
    {
        let mut arenas: Vec<Vec<TileKind>> = Vec::new();
        let mut a: usize = 0;
        while a < 9
            invariant
                a <= 9,
                arenas@.len() == a,
                forall|x: int| 0 <= x < a ==> (#[trigger] arenas@[x])@ == Seq::new(BOARD_LEN as nat, |i: int| TileKind::Normal),
            decreases 9 - a,
        {
            let mut board: Vec<TileKind> = Vec::new();
            let mut i: usize = 0;
            while i < BOARD_LEN
                invariant
                    i <= BOARD_LEN,
                    board@ == Seq::new(i as nat, |j: int| TileKind::Normal),
                decreases BOARD_LEN - i,
            {
                board.push(TileKind::Normal);
                proof {
                    assert(board@ =~= Seq::new((i + 1) as nat, |j: int| TileKind::Normal));
                }
                i = i + 1;
            }
            arenas.push(board);
            a = a + 1;
        }
        let b = TileBoard { arenas };
        proof {
            assert forall|x: int| 0 <= x < 9 implies (#[trigger] b@[x]).len() == BOARD_LEN by {
                assert(b@[x] == b.arenas@[x]@);
            }
            assert forall|x: int, i: int| 0 <= x < 9 && 0 <= i < BOARD_LEN implies #[trigger] b@[x][i]
                == TileKind::Normal by {
                assert(b@[x] == b.arenas@[x]@);
            }
        }
        b
    }

    /// The state of tile `(arena, col, row)`, if it is on the board.
    pub fn kind(&self, arena: usize, col: usize, row: usize) -> (k: Option<TileKind>)
        requires
            self.wf(),
        ensures
            k == if arena < 9 && in_arena(col as int, row as int) {
                Some(self@[arena as int][row * BOARD_W + col])
            } else {
                None
            },
    {
        if arena < 9 && col < BOARD_W && row < BOARD_H {
            proof {
                assert(self@[arena as int] == self.arenas@[arena as int]@);
            }
            Some(self.arenas[arena][row * BOARD_W + col])
        } else {
            None
        }
    }

    /// Sets tile `(arena, col, row)` to `kind`; a tile off the board is left
    /// alone.
    pub fn set(&mut self, arena: usize, col: usize, row: usize, kind: TileKind)
        requires
            old(self).wf(),
        ensures
            final(self).wf(),
            final(self)@ == if arena < 9 && in_arena(col as int, row as int) {
                old(self)@.update(arena as int, old(self)@[arena as int].update(row * BOARD_W + col, kind))
            } else {
                old(self)@
            },
    {
        if arena < 9 && col < BOARD_W && row < BOARD_H {
            proof {
                assert(old(self)@[arena as int] == old(self).arenas@[arena as int]@);
            }
            let mut board = copy_vec(&self.arenas[arena]);
            board.set(row * BOARD_W + col, kind);
            self.arenas.set(arena, board);
            proof {
                assert(self@ =~= old(self)@.update(arena as int, old(self)@[arena as int].update(row * BOARD_W + col, kind)));
            }
        }
    }

    /// One playback step of `arena`'s tile script on that arena's board (see
    /// [`TileScript::play`]); the other arenas are untouched.
    pub fn play_script(&mut self, arena: usize, script: &mut TileScript, tick: u32, waves: &[Vec<i32>])
        requires
            old(self).wf(),
            arena < 9,
        ensures
            final(self).wf(),
            forall|a: int| 0 <= a < 9 && a != arena ==> #[trigger] final(self)@[a] == old(self)@[a],
            final(script).keyframes@ == old(script).keyframes@,
            final(script).dirty == old(script).dirty,
            applied_cells(final(script).applied) == next_applied(
                desired_spec(old(script).keyframes@, tick, waves@.map_values(|v: Vec<i32>| v@)),
                applied_cells(old(script).applied),
                old(self)@[arena as int],
            ),
            forall|c: (u8, u8)|
                on_board(c) ==> #[trigger] kind_at(final(self)@[arena as int], c) == next_kind(
                    desired_spec(old(script).keyframes@, tick, waves@.map_values(|v: Vec<i32>| v@)),
                    applied_cells(old(script).applied),
                    old(self)@[arena as int],
                    c,
                ),
    {
        proof {
            assert(old(self)@[arena as int] == old(self).arenas@[arena as int]@);
        }
        let mut board = copy_vec(&self.arenas[arena]);
        script.play(tick, waves, &mut board);
        self.arenas.set(arena, board);
        proof {
            assert forall|a: int| 0 <= a < 9 implies (#[trigger] self@[a]).len() == BOARD_LEN by {
                assert(self@[a] == self.arenas@[a]@);
                assert(old(self)@[a] == old(self).arenas@[a]@);
            }
            assert forall|a: int| 0 <= a < 9 && a != arena implies #[trigger] self@[a] == old(self)@[a] by {
                assert(self@[a] == self.arenas@[a]@);
                assert(old(self)@[a] == old(self).arenas@[a]@);
            }
            assert(self@[arena as int] == board@);
        }
    }
}

/// `L`: the tile under the selected character in `arena` turns to lava.
pub fn kindle(board: &mut TileBoard, arena: usize, mover: TileMover)
    requires
        old(board).wf(),
        0 <= mover.col,
        0 <= mover.row,
    ensures
        final(board).wf(),
        final(board)@ == if arena < 9 && in_arena(mover.col as int, mover.row as int) {
            old(board)@.update(arena as int, old(board)@[arena as int].update(mover.row * BOARD_W + mover.col, TileKind::Lava))
        } else {
            old(board)@
        },
{
    board.set(arena, mover.col as usize, mover.row as usize, TileKind::Lava);
}

/// After a step every wanted cell wears the kind the script asks for: when
/// the board shows what the script last put on each cell it holds, each
/// cell of `want` on the board ends with kind `want[c]`, and a held cell
/// that is no longer wanted goes back to its prior kind.
pub proof fn law_wanted_cells_wear_the_wanted_kind(
    want: Map<(u8, u8), TileKind>,
    applied: Map<(u8, u8), AppliedCell>,
    b: Seq<TileKind>,
    c: (u8, u8),
)
    requires
        forall|x: (u8, u8)| #[trigger] applied.dom().contains(x) ==> kind_at(b, x) == applied[x].kind,
    ensures
        want.dom().contains(c) ==> next_kind(want, applied, b, c) == want[c],
        !want.dom().contains(c) && applied.dom().contains(c) ==> next_kind(want, applied, b, c) == applied[c].prior,
        !want.dom().contains(c) && !applied.dom().contains(c) ==> next_kind(want, applied, b, c) == kind_at(b, c),
{
    if applied.dom().contains(c) {
        assert(kind_at(b, c) == applied[c].kind);
    }
}

} // verus!
