//! Tile choreography — keyframed board-state scripts, the tile half of the
//! sheet-music system.
//!
//! A [`TileKeyframe`] holds a tick range, a [`TileSelector`] (one cell, a
//! row/column, a rect, or a moving sine wave), and the [`TileKind`] those
//! cells wear while the range is active. [`desired`] maps `(keyframes, tick)`
//! to the exact set of scripted cells, so playback, scrubbing, and replay can
//! never disagree.
//!
//! A sine wave's band centres are real-valued (`mid + amplitude·sin(..)`,
//! rounded per column); the renderer computes them and hands the per-column
//! centre rows in, and everything from there on — band thickness, clamping to
//! the board, painting — is decided here.

use vstd::prelude::*;

use crate::arena::Arena;
use crate::encounter::{validate_header, validate_header_spec, Difficulty, ScoreHeaderError, SCORE_FORMAT};
use crate::tile::TileKind;
use crate::tile_delta::{delta_cells, delta_insert, delta_new, no_cells, TileDelta};

verus! {

/// File prefix of a tile choreography score (`tiles.vNNNN.ron`).
pub const TILES_PREFIX: &'static str = "tiles";

/// The parameters of a sine-wave selection. The real-valued parameters are
/// carried as the bit patterns of their `f32` values (`f32::to_bits`).
#[derive(Clone, Copy, PartialEq, Eq, Debug, Structural)]
pub struct SineWave {
    /// Amplitude in rows.
    pub amplitude_bits: u32,
    /// Wavelength in columns per radian.
    pub wavelength_bits: u32,
    /// Speed in radians per second.
    pub speed_bits: u32,
    /// Phase in radians.
    pub phase_bits: u32,
    /// Rows in the band.
    pub thickness: u8,
}

/// Which cells a keyframe touches. `Cell`/`Row`/`Col`/`Rect` are static
/// selections; `SineWave` is a band of tiles riding a sine across the arena.
#[derive(Clone, Copy, PartialEq, Eq, Debug, Structural)]
pub enum TileSelector {
    /// One cell.
    Cell { col: u8, row: u8 },
    /// Every cell of one row.
    Row { row: u8 },
    /// Every cell of one column.
    Col { col: u8 },
    /// Every cell in the inclusive rect spanned by the two corners (any order).
    Rect { c0: u8, r0: u8, c1: u8, r1: u8 },
    /// Per column, a `thickness`-row band centred on the wave.
    SineWave(SineWave),
}

/// One keyframe of a tile script: while `from..to` (ticks, end-exclusive) is
/// active, the selected cells wear `kind`.
#[derive(Clone, Copy, PartialEq, Eq, Debug, Structural)]
pub struct TileKeyframe {
    pub from: u32,
    pub to: u32,
    pub selector: TileSelector,
    pub kind: TileKind,
}

/// One arena's tile choreography on disk.
#[derive(PartialEq, Eq, Debug)]
pub struct TileScriptFile {
    pub format: u32,
    pub arena: u8,
    pub difficulty: Difficulty,
    pub keyframes: Vec<TileKeyframe>,
}

impl TileScriptFile {
    /// Rejects a header the reader can't trust — the same contract as the
    /// boss score files.
    pub fn validate(&self, arena: Arena, difficulty: Difficulty) -> (r: Result<(), ScoreHeaderError>)
        ensures
            r == validate_header_spec(
                self.format,
                SCORE_FORMAT,
                self.arena,
                self.difficulty,
                arena,
                difficulty,
            ),
    {
        validate_header(self.format, SCORE_FORMAT, self.arena, self.difficulty, arena, difficulty)
    }
}

/// Bookkeeping for one cell a script currently holds: the scripted `kind` it
/// wears, and the `prior` kind it wore before the script claimed it.
#[derive(Clone, Copy, PartialEq, Eq, Debug, Structural)]
pub struct AppliedCell {
    pub kind: TileKind,
    pub prior: TileKind,
}

// --- The model ----------------------------------------------------------------

pub open spec fn min_int(a: int, b: int) -> int {
    if a <= b {
        a
    } else {
        b
    }
}

pub open spec fn max_int(a: int, b: int) -> int {
    if a >= b {
        a
    } else {
        b
    }
}

/// Rows `lo..=hi` of column `col`, top to bottom.
pub open spec fn column_run(col: int, lo: int, hi: int) -> Seq<(u8, u8)> {
    if hi < lo {
        Seq::empty()
    } else {
        Seq::new((hi - lo + 1) as nat, |i: int| (col as u8, (lo + i) as u8))
    }
}

/// Columns `lo_c..=hi_c`, each contributing rows `lo_r..=hi_r`.
pub open spec fn rect_cells(lo_c: int, hi_c: int, lo_r: int, hi_r: int) -> Seq<(u8, u8)>
    decreases hi_c - lo_c + 1,
{
    if hi_c < lo_c {
        Seq::empty()
    } else {
        rect_cells(lo_c, hi_c - 1, lo_r, hi_r) + column_run(hi_c, lo_r, hi_r)
    }
}

/// The rows of a `thickness`-row band centred on row `centre`, clamped to the
/// board: `thickness` (at least 1) splits as `(t-1)/2` rows below the centre
/// and `t/2` above.
pub open spec fn band(col: int, centre: int, thickness: u8) -> Seq<(u8, u8)> {
    let t = max_int(thickness as int, 1);
    let down = (t - 1) / 2;
    let up = t / 2;
    column_run(col, max_int(centre - down, 0), min_int(centre + up, 30))
}

/// The band cells of the first `n` columns, column by column.
pub open spec fn wave_cells_upto(centres: Seq<i32>, thickness: u8, n: int) -> Seq<(u8, u8)>
    decreases n,
{
    if n <= 0 {
        Seq::empty()
    } else {
        wave_cells_upto(centres, thickness, n - 1) + band(n - 1, centres[n - 1] as int, thickness)
    }
}

/// A wave's cells given its per-column centre rows (at most one per column).
pub open spec fn wave_cells(centres: Seq<i32>, thickness: u8) -> Seq<(u8, u8)> {
    wave_cells_upto(centres, thickness, min_int(centres.len() as int, 66))
}

/// The cells a selector covers; `centres` are the wave's per-column centre
/// rows at this moment (unused by the static selectors). Out-of-range parts of
/// a selection clamp away.
pub open spec fn selector_cells(selector: TileSelector, centres: Seq<i32>) -> Seq<(u8, u8)> {
    match selector {
        TileSelector::Cell { col, row } => if col <= 65 && row <= 30 {
            seq![(col, row)]
        } else {
            Seq::empty()
        },
        TileSelector::Row { row } => if row <= 30 {
            Seq::new(66, |i: int| (i as u8, row))
        } else {
            Seq::empty()
        },
        TileSelector::Col { col } => if col <= 65 {
            Seq::new(31, |i: int| (col, i as u8))
        } else {
            Seq::empty()
        },
        TileSelector::Rect { c0, r0, c1, r1 } => rect_cells(
            min_int(c0 as int, c1 as int),
            min_int(max_int(c0 as int, c1 as int), 65),
            min_int(r0 as int, r1 as int),
            min_int(max_int(r0 as int, r1 as int), 30),
        ),
        TileSelector::SineWave(w) => wave_cells(centres, w.thickness),
    }
}

/// `m` with every cell of `cells` set to `kind`, in order.
pub open spec fn paint(m: Map<(u8, u8), TileKind>, cells: Seq<(u8, u8)>, kind: TileKind) -> Map<
    (u8, u8),
    TileKind,
>
    decreases cells.len(),
{
    if cells.len() == 0 {
        m
    } else {
        paint(m, cells.drop_last(), kind).insert(cells.last(), kind)
    }
}

/// Keyframe `k` is active at `tick`.
pub open spec fn active(k: TileKeyframe, tick: u32) -> bool {
    k.from <= tick < k.to
}

/// The centre rows supplied for keyframe `i` (none if not supplied).
pub open spec fn centres_for(waves: Seq<Seq<i32>>, i: int) -> Seq<i32> {
    if 0 <= i < waves.len() {
        waves[i]
    } else {
        Seq::empty()
    }
}

/// `m` after every keyframe of `frames` active at `tick` paints its cells
/// over it, in order; `waves[i]` holds frame `i`'s wave centres.
pub open spec fn paint_frames(
    m: Map<(u8, u8), TileKind>,
    frames: Seq<TileKeyframe>,
    tick: u32,
    waves: Seq<Seq<i32>>,
) -> Map<(u8, u8), TileKind>
    decreases frames.len(),
{
    if frames.len() == 0 {
        m
    } else {
        let before = paint_frames(m, frames.drop_last(), tick, waves);
        let k = frames.last();
        if active(k, tick) {
            paint(before, selector_cells(k.selector, centres_for(waves, frames.len() - 1)), k.kind)
        } else {
            before
        }
    }
}

/// The board delta at `tick`: every active keyframe paints its cells in file
/// order, so later keyframes win overlaps.
pub open spec fn desired_spec(keyframes: Seq<TileKeyframe>, tick: u32, waves: Seq<Seq<i32>>) -> Map<
    (u8, u8),
    TileKind,
> {
    paint_frames(no_cells(), keyframes, tick, waves)
}

// --- Lemmas and laws --------------------------------------------------------------

/// Painting sets exactly the painted cells and leaves the rest alone.
pub proof fn lemma_paint(m: Map<(u8, u8), TileKind>, cells: Seq<(u8, u8)>, kind: TileKind, c: (u8, u8))
    ensures
        cells.contains(c) ==> paint(m, cells, kind).dom().contains(c) && paint(m, cells, kind)[c]
            == kind,
        !cells.contains(c) ==> (paint(m, cells, kind).dom().contains(c) == m.dom().contains(c)),
        !cells.contains(c) && m.dom().contains(c) ==> paint(m, cells, kind)[c] == m[c],
    decreases cells.len(),
{
    if cells.len() > 0 {
        lemma_paint(m, cells.drop_last(), kind, c);
        if c != cells.last() {
            if cells.contains(c) {
                let i = choose|i: int| 0 <= i < cells.len() && cells[i] == c;
                assert(cells.drop_last()[i] == c);
            } else {
                assert forall|i: int| 0 <= i < cells.drop_last().len() implies cells.drop_last()[i]
                    != c by {
                    assert(cells.drop_last()[i] == cells[i]);
                }
            }
        }
    }
}

/// Later keyframes win overlaps: a cell the last keyframe covers while active
/// wears that keyframe's kind, whatever came before.
pub proof fn law_later_keyframe_wins(
    keyframes: Seq<TileKeyframe>,
    tick: u32,
    waves: Seq<Seq<i32>>,
    c: (u8, u8),
)
    requires
        keyframes.len() > 0,
        active(keyframes.last(), tick),
        selector_cells(keyframes.last().selector, centres_for(waves, keyframes.len() - 1)).contains(
            c,
        ),
    ensures
        desired_spec(keyframes, tick, waves).dom().contains(c),
        desired_spec(keyframes, tick, waves)[c] == keyframes.last().kind,
{
    let k = keyframes.last();
    lemma_paint(
        paint_frames(no_cells(), keyframes.drop_last(), tick, waves),
        selector_cells(k.selector, centres_for(waves, keyframes.len() - 1)),
        k.kind,
        c,
    );
}

/// A keyframe range is end-exclusive: a script whose keyframes are all
/// inactive at `tick` asks for no cell at all.
pub proof fn law_inactive_scripts_are_empty(keyframes: Seq<TileKeyframe>, tick: u32, waves: Seq<Seq<i32>>)
    requires
        forall|i: int| 0 <= i < keyframes.len() ==> !active(#[trigger] keyframes[i], tick),
    ensures
        desired_spec(keyframes, tick, waves) == no_cells(),
    decreases keyframes.len(),
{
    if keyframes.len() > 0 {
        assert forall|i: int| 0 <= i < keyframes.drop_last().len() implies !active(
            #[trigger] keyframes.drop_last()[i],
            tick,
        ) by {
            assert(keyframes.drop_last()[i] == keyframes[i]);
        }
        law_inactive_scripts_are_empty(keyframes.drop_last(), tick, waves);
        assert(!active(keyframes[keyframes.len() - 1], tick));
        assert(paint_frames(no_cells(), keyframes, tick, waves) == paint_frames(
            no_cells(),
            keyframes.drop_last(),
            tick,
            waves,
        ));
    }
}

/// Every selected cell is on the board.
pub proof fn law_selected_cells_are_on_the_board(selector: TileSelector, centres: Seq<i32>, i: int)
    requires
        0 <= i < selector_cells(selector, centres).len(),
    ensures
        selector_cells(selector, centres)[i].0 <= 65,
        selector_cells(selector, centres)[i].1 <= 30,
{
    match selector {
        TileSelector::Rect { c0, r0, c1, r1 } => {
            lemma_rect_on_board(
                min_int(c0 as int, c1 as int),
                min_int(max_int(c0 as int, c1 as int), 65),
                min_int(r0 as int, r1 as int),
                min_int(max_int(r0 as int, r1 as int), 30),
                i,
            );
        },
        TileSelector::SineWave(w) => {
            lemma_wave_on_board(centres, w.thickness, min_int(centres.len() as int, 66), i);
        },
        _ => {},
    }
}

pub proof fn lemma_rect_on_board(lo_c: int, hi_c: int, lo_r: int, hi_r: int, i: int)
    requires
        0 <= lo_c,
        hi_c <= 65,
        0 <= lo_r,
        hi_r <= 30,
        0 <= i < rect_cells(lo_c, hi_c, lo_r, hi_r).len(),
    ensures
        rect_cells(lo_c, hi_c, lo_r, hi_r)[i].0 <= 65,
        rect_cells(lo_c, hi_c, lo_r, hi_r)[i].1 <= 30,
    decreases hi_c - lo_c + 1,
{
    if hi_c >= lo_c {
        let a = rect_cells(lo_c, hi_c - 1, lo_r, hi_r);
        if i < a.len() {
            lemma_rect_on_board(lo_c, hi_c - 1, lo_r, hi_r, i);
        }
    }
}

pub proof fn lemma_wave_on_board(centres: Seq<i32>, thickness: u8, n: int, i: int)
    requires
        n <= 66,
        n <= centres.len(),
        0 <= i < wave_cells_upto(centres, thickness, n).len(),
    ensures
        wave_cells_upto(centres, thickness, n)[i].0 <= 65,
        wave_cells_upto(centres, thickness, n)[i].1 <= 30,
    decreases n,
{
    if n > 0 {
        let a = wave_cells_upto(centres, thickness, n - 1);
        if i < a.len() {
            lemma_wave_on_board(centres, thickness, n - 1, i);
        }
    }
}

/// Painting only depends on the wave centres of the frames painted.
pub proof fn lemma_paint_frames_waves(
    m: Map<(u8, u8), TileKind>,
    frames: Seq<TileKeyframe>,
    tick: u32,
    w1: Seq<Seq<i32>>,
    w2: Seq<Seq<i32>>,
)
    requires
        forall|i: int| 0 <= i < frames.len() ==> centres_for(w1, i) == centres_for(w2, i),
    ensures
        paint_frames(m, frames, tick, w1) == paint_frames(m, frames, tick, w2),
    decreases frames.len(),
{
    if frames.len() > 0 {
        lemma_paint_frames_waves(m, frames.drop_last(), tick, w1, w2);
        assert(centres_for(w1, frames.len() - 1) == centres_for(w2, frames.len() - 1));
    }
}

/// Painting `a` then `b` is painting `a + b`.
pub proof fn lemma_paint_frames_concat(
    m: Map<(u8, u8), TileKind>,
    a: Seq<TileKeyframe>,
    b: Seq<TileKeyframe>,
    tick: u32,
    wa: Seq<Seq<i32>>,
    wb: Seq<Seq<i32>>,
)
    requires
        wa.len() == a.len(),
    ensures
        paint_frames(m, a + b, tick, wa + wb) == paint_frames(
            paint_frames(m, a, tick, wa),
            b,
            tick,
            wb,
        ),
    decreases b.len(),
{
    if b.len() == 0 {
        assert(a + b =~= a);
        assert forall|i: int| 0 <= i < a.len() implies centres_for(wa + wb, i) == centres_for(
            wa,
            i,
        ) by {
            assert((wa + wb)[i] == wa[i]);
        }
        lemma_paint_frames_waves(m, a, tick, wa + wb, wa);
    } else {
        lemma_paint_frames_concat(m, a, b.drop_last(), tick, wa, wb);
        assert((a + b).drop_last() =~= a + b.drop_last());
        assert((a + b).last() == b.last());
        let j = b.len() - 1;
        if j < wb.len() {
            assert((wa + wb)[a.len() + j] == wb[j]);
        }
        assert(centres_for(wa + wb, (a + b).len() - 1) == centres_for(wb, j));
    }
}

/// A cell the painted frames set wears their kind, whatever lay beneath.
pub proof fn lemma_paint_frames_over(
    m: Map<(u8, u8), TileKind>,
    frames: Seq<TileKeyframe>,
    tick: u32,
    waves: Seq<Seq<i32>>,
    c: (u8, u8),
)
    requires
        paint_frames(no_cells(), frames, tick, waves).dom().contains(c),
    ensures
        paint_frames(m, frames, tick, waves).dom().contains(c),
        paint_frames(m, frames, tick, waves)[c] == paint_frames(no_cells(), frames, tick, waves)[c],
    decreases frames.len(),
{
    if frames.len() > 0 {
        let k = frames.last();
        let below_m = paint_frames(m, frames.drop_last(), tick, waves);
        let below_e = paint_frames(no_cells(), frames.drop_last(), tick, waves);
        if active(k, tick) {
            let cells = selector_cells(k.selector, centres_for(waves, frames.len() - 1));
            lemma_paint(below_m, cells, k.kind, c);
            lemma_paint(below_e, cells, k.kind, c);
            if !cells.contains(c) {
                lemma_paint_frames_over(m, frames.drop_last(), tick, waves, c);
            }
        } else {
            lemma_paint_frames_over(m, frames.drop_last(), tick, waves, c);
        }
    }
}

/// Later keyframes win overlaps, whole scripts at a time: appending script
/// `b` after script `a`, every cell `b` asks for wears exactly what `b` alone
/// would give it, whatever `a` says. (With layer stacks this is "the top
/// layer wins".)
pub proof fn law_later_script_wins(
    a: Seq<TileKeyframe>,
    b: Seq<TileKeyframe>,
    tick: u32,
    wa: Seq<Seq<i32>>,
    wb: Seq<Seq<i32>>,
    c: (u8, u8),
)
    requires
        wa.len() == a.len(),
        desired_spec(b, tick, wb).dom().contains(c),
    ensures
        desired_spec(a + b, tick, wa + wb).dom().contains(c),
        desired_spec(a + b, tick, wa + wb)[c] == desired_spec(b, tick, wb)[c],
{
    lemma_paint_frames_concat(no_cells(), a, b, tick, wa, wb);
    lemma_paint_frames_over(paint_frames(no_cells(), a, tick, wa), b, tick, wb, c);
}

// --- Operations -------------------------------------------------------------------

/// Appends rows `lo..=hi` of column `col` to `out`.
fn push_column_run(out: &mut Vec<(u8, u8)>, col: u8, lo: u8, hi: u8)
    requires
        hi <= 30,
    ensures
        final(out)@ == old(out)@ + column_run(col as int, lo as int, hi as int),
{
    let ghost before = out@;
    if hi < lo {
        proof {
            assert(before + column_run(col as int, lo as int, hi as int) =~= before);
        }
        return ;
    }
    let mut row: u8 = lo;
    while row <= hi
        invariant
            lo <= row <= hi + 1,
            lo <= hi <= 30,
            out@ == before + column_run(col as int, lo as int, row - 1),
        decreases hi + 1 - row,
    {
        out.push((col, row));
        proof {
            assert(column_run(col as int, lo as int, row as int) =~= column_run(
                col as int,
                lo as int,
                row - 1,
            ).push((col, row)));
        }
        row = row + 1;
    }
}

/// Appends a wave's band cells, one column at a time.
fn push_wave(out: &mut Vec<(u8, u8)>, centres: &[i32], thickness: u8)
    ensures
        final(out)@ == old(out)@ + wave_cells(centres@, thickness),
{
    let ghost before = out@;
    let n: usize = if centres.len() < 66 {
        centres.len()
    } else {
        66
    };
    let t: i32 = if thickness == 0 {
        1
    } else {
        thickness as i32
    };
    let down: i32 = (t - 1) / 2;
    let up: i32 = t / 2;
    let mut col: usize = 0;
    while col < n
        invariant
            n == min_int(centres@.len() as int, 66),
            col <= n,
            t == max_int(thickness as int, 1),
            down == (t - 1) / 2,
            up == t / 2,
            out@ == before + wave_cells_upto(centres@, thickness, col as int),
        decreases n - col,
    {
        let centre = centres[col];
        let lo: i64 = if (centre as i64) - (down as i64) < 0 {
            0
        } else {
            (centre as i64) - (down as i64)
        };
        let hi: i64 = if (centre as i64) + (up as i64) > 30 {
            30
        } else {
            (centre as i64) + (up as i64)
        };
        let ghost mid = out@;
        if lo <= hi {
            push_column_run(out, col as u8, lo as u8, hi as u8);
        }
        proof {
            assert(band(col as int, centre as int, thickness) == column_run(
                col as int,
                lo as int,
                hi as int,
            ));
            if hi < lo {
                assert(out@ =~= mid + column_run(col as int, lo as int, hi as int));
            }
            assert(wave_cells_upto(centres@, thickness, col + 1) == wave_cells_upto(
                centres@,
                thickness,
                col as int,
            ) + band(col as int, centres@[col as int] as int, thickness));
            assert(out@ =~= before + wave_cells_upto(centres@, thickness, col + 1));
        }
        col = col + 1;
    }
}

/// The cells `selector` covers, given a wave's per-column centre rows at this
/// moment (ignored by the static selectors). Always on the board;
/// out-of-range parts of a selection clamp away silently.
pub fn cells_at(selector: &TileSelector, wave_centres: &[i32]) -> (cells: Vec<(u8, u8)>)
    ensures
        cells@ == selector_cells(*selector, wave_centres@),
{
    let mut cells: Vec<(u8, u8)> = Vec::new();
    match *selector {
        TileSelector::Cell { col, row } => {
            if col <= 65 && row <= 30 {
                cells.push((col, row));
            }
            proof {
                if col <= 65 && row <= 30 {
                    assert(cells@ =~= seq![(col, row)]);
                }
            }
        },
        TileSelector::Row { row } => {
            if row <= 30 {
                let mut col: u8 = 0;
                while col < 66
                    invariant
                        col <= 66,
                        cells@ == Seq::new(col as nat, |i: int| (i as u8, row)),
                    decreases 66 - col,
                {
                    cells.push((col, row));
                    proof {
                        assert(cells@ =~= Seq::new((col + 1) as nat, |i: int| (i as u8, row)));
                    }
                    col = col + 1;
                }
            }
            proof {
                if row > 30 {
                    assert(cells@ =~= Seq::<(u8, u8)>::empty());
                }
            }
        },
        TileSelector::Col { col } => {
            if col <= 65 {
                let mut row: u8 = 0;
                while row < 31
                    invariant
                        row <= 31,
                        cells@ == Seq::new(row as nat, |i: int| (col, i as u8)),
                    decreases 31 - row,
                {
                    cells.push((col, row));
                    proof {
                        assert(cells@ =~= Seq::new((row + 1) as nat, |i: int| (col, i as u8)));
                    }
                    row = row + 1;
                }
            }
            proof {
                if col > 65 {
                    assert(cells@ =~= Seq::<(u8, u8)>::empty());
                }
            }
        },
        TileSelector::Rect { c0, r0, c1, r1 } => {
            let lo_c = if c0 < c1 {
                c0
            } else {
                c1
            };
            let big_c = if c0 > c1 {
                c0
            } else {
                c1
            };
            let hi_c = if big_c > 65 {
                65
            } else {
                big_c
            };
            let lo_r = if r0 < r1 {
                r0
            } else {
                r1
            };
            let big_r = if r0 > r1 {
                r0
            } else {
                r1
            };
            let hi_r = if big_r > 30 {
                30
            } else {
                big_r
            };
            if lo_c <= hi_c {
                let mut col: u8 = lo_c;
                while col <= hi_c
                    invariant
                        lo_c <= col <= hi_c + 1,
                        hi_c <= 65,
                        hi_r <= 30,
                        cells@ == rect_cells(lo_c as int, col - 1, lo_r as int, hi_r as int),
                    decreases hi_c + 1 - col,
                {
                    push_column_run(&mut cells, col, lo_r, hi_r);
                    col = col + 1;
                }
            }
        },
        TileSelector::SineWave(w) => {
            push_wave(&mut cells, wave_centres, w.thickness);
            proof {
                assert(cells@ =~= wave_cells(wave_centres@, w.thickness));
            }
        },
    }
    cells
}

/// The full board delta at `tick`: every cell an active keyframe touches,
/// mapped to its kind. Later keyframes win overlaps (file order is paint
/// order). `waves[i]` holds keyframe `i`'s per-column wave centres at this
/// tick (only wave keyframes read it). Cells absent from the map are `Normal`
/// as far as the script cares.
pub fn desired(keyframes: &[TileKeyframe], tick: u32, waves: &[Vec<i32>]) -> (delta: TileDelta)
    ensures
        delta_cells(delta) == desired_spec(
            keyframes@,
            tick,
            waves@.map_values(|v: Vec<i32>| v@),
        ),
{
    let ghost views = waves@.map_values(|v: Vec<i32>| v@);
    let mut out = delta_new();
    let empty: Vec<i32> = Vec::new();
    let mut i: usize = 0;
    while i < keyframes.len()
        invariant
            i <= keyframes@.len(),
            views == waves@.map_values(|v: Vec<i32>| v@),
            empty@ == Seq::<i32>::empty(),
            delta_cells(out) == desired_spec(keyframes@.subrange(0, i as int), tick, views),
        decreases keyframes@.len() - i,
    {
        let k = keyframes[i];
        let ghost before = delta_cells(out);
        proof {
            assert(keyframes@.subrange(0, i + 1).drop_last() =~= keyframes@.subrange(0, i as int));
            assert(keyframes@.subrange(0, i + 1).last() == k);
        }
        if k.from <= tick && tick < k.to {
            let centres: &Vec<i32> = if i < waves.len() {
                &waves[i]
            } else {
                &empty
            };
            proof {
                assert(centres@ == centres_for(views, i as int));
            }
            let cells = cells_at(&k.selector, centres.as_slice());
            let mut j: usize = 0;
            while j < cells.len()
                invariant
                    j <= cells@.len(),
                    delta_cells(out) == paint(before, cells@.subrange(0, j as int), k.kind),
                decreases cells@.len() - j,
            {
                delta_insert(&mut out, cells[j], k.kind);
                proof {
                    assert(cells@.subrange(0, j + 1).drop_last() =~= cells@.subrange(0, j as int));
                    assert(cells@.subrange(0, j + 1).last() == cells@[j as int]);
                }
                j = j + 1;
            }
            proof {
                assert(cells@.subrange(0, cells@.len() as int) =~= cells@);
            }
        }
        i = i + 1;
    }
    proof {
        assert(keyframes@.subrange(0, keyframes@.len() as int) =~= keyframes@);
    }
    out
}

/// A wave's band is `thickness` rows thick (at least one): away from the
/// board's edges, a column's band holds exactly `max(thickness, 1)` cells,
/// consecutive rows of that column running up from `(t - 1) / 2` rows below
/// the centre, so the centre is always in it and `t / 2` rows lie above it.
pub proof fn law_wave_band_is_thickness_rows(col: int, centre: int, thickness: u8)
    requires
        0 <= col <= 65,
        centre - thickness >= 0,
        centre + thickness <= 30,
    ensures
        band(col, centre, thickness).len() == max_int(thickness as int, 1),
        forall|i: int|
            0 <= i < band(col, centre, thickness).len() ==> #[trigger] band(col, centre, thickness)[i] == (
                col as u8,
                (centre - (max_int(thickness as int, 1) - 1) / 2 + i) as u8,
            ),
        band(col, centre, thickness).contains((col as u8, centre as u8)),
        band(col, centre, thickness).last() == (col as u8, (centre + max_int(thickness as int, 1) / 2) as u8),
{
    let t = max_int(thickness as int, 1);
    let b = band(col, centre, thickness);
    assert(b[(t - 1) / 2] == (col as u8, centre as u8));
}

/// A whole wave away from the edges covers `max(thickness, 1)` cells in each
/// of its columns (one column per centre, at most the board's 66).
pub proof fn law_wave_covers_thickness_per_column(centres: Seq<i32>, thickness: u8)
    requires
        forall|i: int|
            0 <= i < centres.len() ==> #[trigger] centres[i] - thickness >= 0 && centres[i] + thickness <= 30,
    ensures
        wave_cells(centres, thickness).len() == min_int(centres.len() as int, 66) * max_int(thickness as int, 1),
{
    lemma_wave_len(centres, thickness, min_int(centres.len() as int, 66));
}

proof fn lemma_wave_len(centres: Seq<i32>, thickness: u8, n: int)
    requires
        0 <= n <= centres.len(),
        n <= 66,
        forall|i: int|
            0 <= i < centres.len() ==> #[trigger] centres[i] - thickness >= 0 && centres[i] + thickness <= 30,
    ensures
        wave_cells_upto(centres, thickness, n).len() == n * max_int(thickness as int, 1),
    decreases n,
{
    let t = max_int(thickness as int, 1);
    if n == 0 {
        assert(n * t == 0) by (nonlinear_arith)
            requires
                n == 0,
        ;
    } else {
        lemma_wave_len(centres, thickness, n - 1);
        let c = centres[n - 1];
        assert(c - thickness >= 0 && c + thickness <= 30);
        law_wave_band_is_thickness_rows(n - 1, c as int, thickness);
        assert(wave_cells_upto(centres, thickness, n) == wave_cells_upto(centres, thickness, n - 1) + band(
            n - 1,
            c as int,
            thickness,
        ));
        assert(n * max_int(thickness as int, 1) == (n - 1) * max_int(thickness as int, 1) + max_int(
            thickness as int,
            1,
        )) by (nonlinear_arith);
    }
}

} // verus!
