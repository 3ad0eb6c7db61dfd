//! What a published encounter directory amounts to: the layered stack file
//! wins; without one, a legacy boss/tiles pair is synthesized into a stack
//! (a Boss layer, then a Tiles layer) at the newer of the two versions.

use vstd::prelude::*;

use crate::layer::{KindModel, Layer, LayerId, LayerKind, LayerModel, LayerStack};
use crate::tile_script::TileKeyframe;
use crate::timeline::{Recording, RecordingModel};

verus! {

/// The legacy pair's stack: a "Boss" layer holding the boss staff (when
/// there is one), then a "Tiles" layer holding the tile keyframes (when
/// there are some), numbered from 0 in that order.
pub open spec fn legacy_layers(boss: Option<RecordingModel>, tiles: Option<Seq<TileKeyframe>>) -> Seq<
    LayerModel,
> {
    let b: Seq<LayerModel> = match boss {
        Some(r) => seq![
            LayerModel {
                id: LayerId(0),
                name: "Boss"@,
                kind: KindModel::Boss(r),
                muted: false,
                solo: false,
                locked: false,
                effects: Seq::empty(),
            },
        ],
        None => Seq::empty(),
    };
    let t: Seq<LayerModel> = match tiles {
        Some(k) => seq![
            LayerModel {
                id: LayerId(b.len() as u32),
                name: "Tiles"@,
                kind: KindModel::Tiles(k),
                muted: false,
                solo: false,
                locked: false,
                effects: Seq::empty(),
            },
        ],
        None => Seq::empty(),
    };
    b + t
}

/// The boss staff of a legacy pair.
pub open spec fn boss_model(boss: Option<(u32, Recording)>) -> Option<RecordingModel> {
    match boss {
        Some((_, rec)) => Some(rec@),
        None => None,
    }
}

/// The tile keyframes of a legacy pair.
pub open spec fn tiles_model(tiles: Option<(u32, Vec<TileKeyframe>)>) -> Option<Seq<TileKeyframe>> {
    match tiles {
        Some((_, k)) => Some(k@),
        None => None,
    }
}

/// Synthesizes the stack a legacy `boss`/`tiles` pair (each with its file
/// version) stands for, at the newer version; `None` when neither exists.
pub fn legacy_stack(boss: Option<(u32, Recording)>, tiles: Option<(u32, Vec<TileKeyframe>)>) -> (r: Option<
    (u32, LayerStack),
>)
    ensures
        (boss is None && tiles is None) <==> r is None,
        r matches Some((v, s)) ==> {
            &&& s@ == legacy_layers(boss_model(boss), tiles_model(tiles))
            &&& v == match (boss, tiles) {
                (Some((a, _)), Some((b, _))) => if a >= b {
                    a
                } else {
                    b
                },
                (Some((a, _)), None) => a,
                (None, Some((b, _))) => b,
                (None, None) => 0,
            }
        },
{
    let ghost bm = boss_model(boss);
    let ghost tm = tiles_model(tiles);
    let mut stack = LayerStack::new();
    let mut version: u32 = 0;
    let mut next: u32 = 0;
    let any = boss.is_some() || tiles.is_some();
    match boss {
        Some((v, rec)) => {
            let layer = Layer::new(LayerId(0), "Boss".to_owned(), LayerKind::Boss(rec));
            stack.layers.push(layer);
            version = v;
            next = 1;
        },
        None => {},
    }
    match tiles {
        Some((v, keys)) => {
            let layer = Layer::new(LayerId(next), "Tiles".to_owned(), LayerKind::Tiles(keys));
            stack.layers.push(layer);
            if v > version {
                version = v;
            }
        },
        None => {},
    }
    proof {
        assert(stack@ =~= legacy_layers(bm, tm));
    }
    if any {
        Some((version, stack))
    } else {
        None
    }
}

/// The stack a published directory stands for: its newest layered file
/// (`layered`, with its version) when there is one, whatever the legacy
/// pair says; else the stack the legacy `boss`/`tiles` pair stands for.
/// `None` when the directory publishes nothing.
pub fn published_stack(
    layered: Option<(u32, LayerStack)>,
    boss: Option<(u32, Recording)>,
    tiles: Option<(u32, Vec<TileKeyframe>)>,
) -> (r: Option<(u32, LayerStack)>)
    ensures
        layered matches Some((v, s)) ==> r matches Some((v2, s2)) && v2 == v && s2@ == s@,
        layered is None ==> ((boss is None && tiles is None) <==> r is None),
        layered is None ==> (r matches Some((v, s)) ==> {
            &&& s@ == legacy_layers(boss_model(boss), tiles_model(tiles))
            &&& v == match (boss, tiles) {
                (Some((a, _)), Some((b, _))) => if a >= b {
                    a
                } else {
                    b
                },
                (Some((a, _)), None) => a,
                (None, Some((b, _))) => b,
                (None, None) => 0,
            }
        }),
{
    match layered {
        Some(found) => Some(found),
        None => legacy_stack(boss, tiles),
    }
}

} // verus!
