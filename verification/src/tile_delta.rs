//! The board delta a tile script asks for at one tick: which cells wear which
//! kind. It is held in the engine's deterministic hash map
//! (`bevy_platform::collections::HashMap`), declared here for verified code;
//! the few map operations the scripts use are wrappers whose contracts state,
//! over the map's contents, what the map's source does.

use vstd::prelude::*;

use bevy_platform::collections::HashMap;
use bevy_platform::hash::FixedHasher;

use crate::tile::TileKind;
use crate::tile_script::AppliedCell;

verus! {

#[verifier::external_type_specification]
#[verifier::external_body]
#[verifier::reject_recursive_types(K)]
#[verifier::reject_recursive_types(V)]
#[verifier::reject_recursive_types(S)]
pub struct ExHashMap<K, V, S>(HashMap<K, V, S>);

#[verifier::external_type_specification]
#[verifier::external_body]
pub struct ExFixedHasher(FixedHasher);

/// Cells and the kind each wears — the board delta of a tile script.
pub type TileDelta = HashMap<(u8, u8), TileKind, FixedHasher>;

/// The cells a delta holds, each mapped to the kind it wears.
pub uninterp spec fn delta_cells(m: HashMap<(u8, u8), TileKind, FixedHasher>) -> Map<
    (u8, u8),
    TileKind,
>;

/// The delta that holds no cell.
pub open spec fn no_cells() -> Map<(u8, u8), TileKind> {
    Map::empty()
}

/// `HashMap::new`: an empty map.
#[verifier::external_body]
pub(crate) fn delta_new() -> (m: TileDelta)
    ensures
        delta_cells(m) == no_cells(),
{
    HashMap::new()
}

/// `HashMap::insert`: afterwards `cell` maps to `kind` (replacing any earlier
/// kind) and every other cell is unchanged. Keys are `(u8, u8)` tuples, whose
/// equality and hashing std defines field by field.
#[verifier::external_body]
pub(crate) fn delta_insert(m: &mut TileDelta, cell: (u8, u8), kind: TileKind)
    ensures
        delta_cells(*final(m)) == delta_cells(*old(m)).insert(cell, kind),
{
    m.insert(cell, kind);
}

/// `HashMap::get`: the kind `cell` maps to, if the map holds it.
#[verifier::external_body]
pub(crate) fn delta_get(m: &TileDelta, cell: (u8, u8)) -> (k: Option<TileKind>)
    ensures
        k == (if delta_cells(*m).dom().contains(cell) {
            Some(delta_cells(*m)[cell])
        } else {
            None
        }),
{
    m.get(&cell).copied()
}

/// `HashMap::iter`: every `(cell, kind)` pair of the map, each once, in an
/// order the map leaves open (copied out).
#[verifier::external_body]
pub(crate) fn delta_entries(m: &TileDelta) -> (v: Vec<((u8, u8), TileKind)>)
    ensures
        forall|i: int| 0 <= i < v@.len() ==> delta_cells(*m).dom().contains(#[trigger] v@[i].0)
            && delta_cells(*m)[v@[i].0] == v@[i].1,
        forall|c: (u8, u8)| delta_cells(*m).dom().contains(c) ==> exists|i: int|
            0 <= i < v@.len() && #[trigger] v@[i].0 == c,
        forall|i: int, j: int| 0 <= i < j < v@.len() ==> v@[i].0 != v@[j].0,
{
    m.iter().map(|(c, k)| (*c, *k)).collect()
}

/// The cells a tile script has claimed, each with the kind it put there and
/// the kind the cell wore before.
pub type AppliedMap = HashMap<(u8, u8), AppliedCell, FixedHasher>;

/// What an applied map holds.
pub uninterp spec fn applied_cells(m: HashMap<(u8, u8), AppliedCell, FixedHasher>) -> Map<
    (u8, u8),
    AppliedCell,
>;

/// The applied map that holds no cell.
pub open spec fn none_applied() -> Map<(u8, u8), AppliedCell> {
    Map::empty()
}

/// `HashMap::new`: an empty map.
#[verifier::external_body]
pub(crate) fn applied_new() -> (m: AppliedMap)
    ensures
        applied_cells(m) == none_applied(),
{
    HashMap::new()
}

/// `HashMap::insert`: afterwards `cell` maps to `entry`, every other cell
/// unchanged.
#[verifier::external_body]
pub(crate) fn applied_insert(m: &mut AppliedMap, cell: (u8, u8), entry: AppliedCell)
    ensures
        applied_cells(*final(m)) == applied_cells(*old(m)).insert(cell, entry),
{
    m.insert(cell, entry);
}

/// `HashMap::get`: the entry of `cell`, if the map holds it.
#[verifier::external_body]
pub(crate) fn applied_get(m: &AppliedMap, cell: (u8, u8)) -> (e: Option<AppliedCell>)
    ensures
        e == (if applied_cells(*m).dom().contains(cell) {
            Some(applied_cells(*m)[cell])
        } else {
            None
        }),
{
    m.get(&cell).copied()
}

/// `HashMap::iter`: every `(cell, entry)` pair of the map, each once, in an
/// order the map leaves open (copied out).
#[verifier::external_body]
pub(crate) fn applied_entries(m: &AppliedMap) -> (v: Vec<((u8, u8), AppliedCell)>)
    ensures
        forall|i: int| 0 <= i < v@.len() ==> applied_cells(*m).dom().contains(#[trigger] v@[i].0)
            && applied_cells(*m)[v@[i].0] == v@[i].1,
        forall|c: (u8, u8)| applied_cells(*m).dom().contains(c) ==> exists|i: int|
            0 <= i < v@.len() && #[trigger] v@[i].0 == c,
        forall|i: int, j: int| 0 <= i < j < v@.len() ==> v@[i].0 != v@[j].0,
{
    m.iter().map(|(c, e)| (*c, *e)).collect()
}

} // verus!
