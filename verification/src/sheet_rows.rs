//! The dope sheet's channel rows: one per layer of the focused arena's
//! draft, top of the stack first, each with its kind's glyph, whether it has
//! unsaved changes, and its mute/solo/lock switches.

use vstd::prelude::*;

use crate::arena::{arena_slug, Arena};
use crate::layer::{layer_dirty_spec, ArenaStack, KindModel, LayerId, LayerKind, LayerModel};
use crate::versions::{chars_of, string_from_chars};

verus! {

/// One channel row: the layer's position in the stack, its id, the glyph of
/// its kind (`B` boss, `M` minion, `T` tiles), the unsaved-changes marker,
/// and its switches.
#[derive(Clone, Copy, PartialEq, Eq, Debug, Structural)]
pub struct SheetRow {
    pub index: usize,
    pub id: LayerId,
    pub glyph: char,
    pub dirty: bool,
    pub muted: bool,
    pub solo: bool,
    pub locked: bool,
}

/// The glyph a layer's row shows for its kind.
pub open spec fn kind_glyph(k: KindModel) -> char {
    match k {
        KindModel::Boss(_) => 'B',
        KindModel::Minion { .. } => 'M',
        KindModel::Tiles(_) => 'T',
    }
}

/// The row of the layer at `i` of the draft `s`, against the baseline `p`.
pub open spec fn row_at(s: Seq<LayerModel>, p: Seq<LayerModel>, i: int) -> SheetRow {
    SheetRow {
        index: i as usize,
        id: s[i].id,
        glyph: kind_glyph(s[i].kind),
        dirty: layer_dirty_spec(s, p, s[i].id),
        muted: s[i].muted,
        solo: s[i].solo,
        locked: s[i].locked,
    }
}

/// The channel rows of an arena's draft, top of the stack first.
pub fn sheet_rows(a: &ArenaStack) -> (rows: Vec<SheetRow>)
    ensures
        rows@.len() == a.stack@.len(),
        forall|k: int|
            0 <= k < rows@.len() ==> #[trigger] rows@[k] == row_at(
                a.stack@,
                a.published@,
                a.stack@.len() - 1 - k,
            ),
{
    let n = a.stack.layers.len();
    let mut rows: Vec<SheetRow> = Vec::new();
    let mut k: usize = 0;
    while k < n
        invariant
            n == a.stack.layers@.len(),
            n == a.stack@.len(),
            k <= n,
            rows@.len() == k,
            forall|x: int| 0 <= x < k ==> #[trigger] rows@[x] == row_at(a.stack@, a.published@, n - 1 - x),
        decreases n - k,
    {
        let i = n - 1 - k;
        let layer = &a.stack.layers[i];
        proof {
            assert(a.stack@[i as int] == a.stack.layers@[i as int]@);
        }
        let glyph = match layer.kind {
            LayerKind::Boss(_) => 'B',
            LayerKind::Minion(_) => 'M',
            LayerKind::Tiles(_) => 'T',
        };
        let dirty = a.layer_dirty(layer.id);
        rows.push(
            SheetRow {
                index: i,
                id: layer.id,
                glyph,
                dirty,
                muted: layer.muted,
                solo: layer.solo,
                locked: layer.locked,
            },
        );
        k = k + 1;
    }
    rows
}

/// The sheet's title: `DOPE SHEET · ` and the focused arena's slug.
pub open spec fn sheet_title_text(arena: Arena) -> Seq<char> {
    "DOPE SHEET \u{b7} "@ + arena_slug(arena)
}

/// The sheet's title line.
pub fn sheet_title(arena: Arena) -> (s: String)
    ensures
        s@ == sheet_title_text(arena),
{
    let mut chars = chars_of("DOPE SHEET \u{b7} ");
    chars.append(&mut chars_of(arena.slug()));
    string_from_chars(&chars)
}

} // verus!
