//! The dope sheet's keyframe editing grammar: selection, moves with the snap
//! invariant, snapshots for cancelling an in-flight edit, and the collision
//! rule. Every edit works on an arena's draft stack, and every key position
//! is tick-quantized and clamped to the cycle.

use vstd::prelude::*;

use crate::effect::{ease_name, EaseKind, EffectKey, EffectKind, EffectTrack, TrackModel};
use crate::versions::{chars_of, decimal_digits, lemma_decimal_digits, padded_digits, string_from_chars};
use crate::layer::{
    layers_view, lemma_position_of_from, position_of, tracks_view, Layer, LayerId, LayerModel,
    LayerStack,
};
use crate::timeline::{copy_vec, CYCLE_TICKS};

verus! {

/// One selected keyframe, identified structurally.
#[derive(Clone, Copy, PartialEq, Eq, Debug, Structural)]
pub struct SelKey {
    pub layer: LayerId,
    pub kind: EffectKind,
    pub tick: u32,
}

/// A snapshot of one track an in-flight edit may need to restore.
#[derive(Debug)]
pub struct TrackSnapshot {
    pub layer: LayerId,
    pub kind: EffectKind,
    pub keys: Vec<EffectKey>,
}

// --- The collision rule -----------------------------------------------------------

/// The last key of `s` stamped `t`, if any.
pub open spec fn last_with_tick(s: Seq<EffectKey>, t: u32) -> Option<EffectKey>
    decreases s.len(),
{
    if s.len() == 0 {
        None
    } else if s.last().tick == t {
        Some(s.last())
    } else {
        last_with_tick(s.drop_last(), t)
    }
}

/// Ticks strictly increase along `s`.
pub open spec fn strictly_sorted(s: Seq<EffectKey>) -> bool {
    forall|i: int, j: int| 0 <= i < j < s.len() ==> s[i].tick < s[j].tick
}

/// `r` is `s` sorted by tick with equal ticks merged, the last key of each
/// tick winning (the collision rule).
pub open spec fn normalized_of(r: Seq<EffectKey>, s: Seq<EffectKey>) -> bool {
    &&& strictly_sorted(r)
    &&& forall|t: u32| #[trigger] last_with_tick(r, t) == last_with_tick(s, t)
}

pub proof fn lemma_last_with_tick_concat(a: Seq<EffectKey>, b: Seq<EffectKey>, t: u32)
    ensures
        last_with_tick(a + b, t) == (match last_with_tick(b, t) {
            Some(k) => Some(k),
            None => last_with_tick(a, t),
        }),
    decreases b.len(),
{
    if b.len() == 0 {
        assert(a + b =~= a);
    } else {
        lemma_last_with_tick_concat(a, b.drop_last(), t);
        assert((a + b).drop_last() =~= a + b.drop_last());
        assert((a + b).last() == b.last());
    }
}

pub proof fn lemma_last_with_tick_none(s: Seq<EffectKey>, t: u32)
    requires
        forall|i: int| 0 <= i < s.len() ==> s[i].tick != t,
    ensures
        last_with_tick(s, t) is None,
    decreases s.len(),
{
    if s.len() > 0 {
        lemma_last_with_tick_none(s.drop_last(), t);
    }
}

pub proof fn lemma_last_with_tick_found(s: Seq<EffectKey>, t: u32)
    ensures
        last_with_tick(s, t) matches Some(k) ==> k.tick == t,
    decreases s.len(),
{
    if s.len() > 0 {
        lemma_last_with_tick_found(s.drop_last(), t);
    }
}

/// Two strictly sorted sequences with the same key at every tick are equal:
/// the collision rule has exactly one outcome.
pub proof fn law_normalized_is_unique(r1: Seq<EffectKey>, r2: Seq<EffectKey>)
    requires
        strictly_sorted(r1),
        strictly_sorted(r2),
        forall|t: u32| #[trigger] last_with_tick(r1, t) == last_with_tick(r2, t),
    ensures
        r1 == r2,
    decreases r1.len() + r2.len(),
{
    if r1.len() == 0 && r2.len() == 0 {
        assert(r1 =~= r2);
    } else if r1.len() == 0 {
        assert(last_with_tick(r2, r2.last().tick) is Some);
        assert(last_with_tick(r1, r2.last().tick) is None);
    } else if r2.len() == 0 {
        assert(last_with_tick(r1, r1.last().tick) is Some);
        assert(last_with_tick(r2, r1.last().tick) is None);
    } else {
        let m1 = r1.last().tick;
        let m2 = r2.last().tick;
        // Each holds a key at the other's largest tick, so the largest ticks agree.
        assert(last_with_tick(r2, m1) is Some);
        assert(last_with_tick(r1, m2) is Some);
        if m1 < m2 {
            lemma_last_with_tick_none(r1, m2);
        }
        if m2 < m1 {
            lemma_last_with_tick_none(r2, m1);
        }
        assert(m1 == m2);
        assert(r1.last() == r2.last());
        assert forall|t: u32| #[trigger] last_with_tick(r1.drop_last(), t) == last_with_tick(
            r2.drop_last(),
            t,
        ) by {
            if t == m1 {
                lemma_last_with_tick_none(r1.drop_last(), t);
                lemma_last_with_tick_none(r2.drop_last(), t);
            } else {
                assert(last_with_tick(r1, t) == last_with_tick(r2, t));
            }
        }
        law_normalized_is_unique(r1.drop_last(), r2.drop_last());
        assert(r1 =~= r1.drop_last().push(r1.last()));
        assert(r2 =~= r2.drop_last().push(r2.last()));
    }
}

/// Writing `k` between `lo` and `hi` in place of at most one key at its tick
/// gives every tick the key it has after `s` is followed by `k`.
proof fn lemma_place_one(
    old_v: Seq<EffectKey>,
    s: Seq<EffectKey>,
    k: EffectKey,
    lo: Seq<EffectKey>,
    mid: Seq<EffectKey>,
    hi: Seq<EffectKey>,
    t: u32,
)
    requires
        old_v == lo + mid + hi,
        mid.len() <= 1,
        forall|x: int| 0 <= x < mid.len() ==> #[trigger] mid[x].tick == k.tick,
        forall|x: int| 0 <= x < hi.len() ==> #[trigger] hi[x].tick != k.tick,
        last_with_tick(old_v, t) == last_with_tick(s, t),
    ensures
        last_with_tick(lo + seq![k] + hi, t) == last_with_tick(s.push(k), t),
{
    lemma_last_with_tick_concat(lo + seq![k], hi, t);
    lemma_last_with_tick_concat(lo, seq![k], t);
    lemma_last_with_tick_concat(lo + mid, hi, t);
    lemma_last_with_tick_concat(lo, mid, t);
    assert(seq![k].drop_last() =~= Seq::<EffectKey>::empty());
    assert(seq![k].last() == k);
    assert(s.push(k).drop_last() =~= s);
    assert(s.push(k).last() == k);
    assert(last_with_tick(Seq::<EffectKey>::empty(), t) is None);
    if t == k.tick {
        lemma_last_with_tick_none(hi, t);
    } else {
        lemma_last_with_tick_none(mid, t);
    }
}

/// Puts `k` into strictly sorted `v`: replaces a key at the same tick, or
/// inserts it in tick order.
fn place_key(v: &mut Vec<EffectKey>, k: EffectKey, Ghost(s): Ghost<Seq<EffectKey>>)
    requires
        normalized_of(old(v)@, s),
    ensures
        normalized_of(final(v)@, s.push(k)),
{
    let mut p: usize = 0;
    while p < v.len() && v[p].tick < k.tick
        invariant
            p <= v@.len(),
            v@ == old(v)@,
            strictly_sorted(v@),
            forall|i: int| 0 <= i < p ==> v@[i].tick < k.tick,
        decreases v@.len() - p,
    {
        p = p + 1;
    }
    let ghost old_v = v@;
    let replace = p < v.len() && v[p].tick == k.tick;
    let ghost rest_from: int = if replace {
        p + 1
    } else {
        p as int
    };
    proof {
        assert forall|i: int| rest_from <= i < old_v.len() implies old_v[i].tick > k.tick by {
            assert(old_v[p as int].tick >= k.tick);
            if replace {
                assert(old_v[p as int].tick < old_v[i].tick);
            } else if i > p {
                assert(old_v[p as int].tick < old_v[i].tick);
            }
        }
    }
    if replace {
        v.set(p, k);
    } else {
        v.insert(p, k);
    }
    proof {
        let lo = old_v.subrange(0, p as int);
        let hi = old_v.subrange(rest_from, old_v.len() as int);
        assert(v@ =~= lo + seq![k] + hi);
        if replace {
            assert(old_v =~= lo + seq![old_v[p as int]] + hi);
        } else {
            assert(old_v =~= lo + hi);
        }
        let mid = if replace {
            seq![old_v[p as int]]
        } else {
            Seq::<EffectKey>::empty()
        };
        assert(old_v =~= lo + mid + hi);
        assert forall|x: int| 0 <= x < hi.len() implies #[trigger] hi[x].tick != k.tick by {
            assert(hi[x] == old_v[rest_from + x]);
        }
        assert forall|t: u32| #[trigger] last_with_tick(v@, t) == last_with_tick(s.push(k), t) by {
            lemma_place_one(old_v, s, k, lo, mid, hi, t);
        }
        assert forall|i: int, j: int| 0 <= i < j < v@.len() implies v@[i].tick < v@[j].tick by {
            if i < p && j > p {
                assert(v@[i].tick < k.tick);
            }
        }
    }
}

/// Sorts a track's keys by tick and merges keys at the same tick, the last
/// one winning — the design's collision rule.
pub fn normalize(track: &mut EffectTrack)
    ensures
        final(track).kind == old(track).kind,
        normalized_of(final(track).keys@, old(track).keys@),
{
    let mut v: Vec<EffectKey> = Vec::new();
    let mut i: usize = 0;
    proof {
        assert forall|t: u32| #[trigger] last_with_tick(v@, t) == last_with_tick(
            track.keys@.subrange(0, 0),
            t,
        ) by {
            assert(v@ =~= track.keys@.subrange(0, 0));
        }
    }
    while i < track.keys.len()
        invariant
            track.keys@ == old(track).keys@,
            track.kind == old(track).kind,
            i <= track.keys@.len(),
            normalized_of(v@, track.keys@.subrange(0, i as int)),
        decreases track.keys@.len() - i,
    {
        let k = track.keys[i];
        place_key(&mut v, k, Ghost(track.keys@.subrange(0, i as int)));
        proof {
            assert(track.keys@.subrange(0, i as int).push(k) =~= track.keys@.subrange(0, i + 1));
        }
        i = i + 1;
    }
    proof {
        assert(track.keys@.subrange(0, track.keys@.len() as int) =~= track.keys@);
    }
    track.keys = v;
}

// --- The snap invariant -------------------------------------------------------------

/// `tick + delta`, clamped into the cycle `[0, CYCLE_TICKS)`.
pub open spec fn shift_tick_spec(tick: u32, delta: int) -> u32 {
    let t = tick + delta;
    if t < 0 {
        0
    } else if t > CYCLE_TICKS - 1 {
        (CYCLE_TICKS - 1) as u32
    } else {
        t as u32
    }
}

/// The tick-quantization invariant: every shift lands on a tick inside the
/// cycle. The sum must fit an `i64`.
pub fn shift_tick(tick: u32, delta: i64) -> (t: u32)
    requires
        tick + delta <= i64::MAX,
    ensures
        t == shift_tick_spec(tick, delta as int),
        t < CYCLE_TICKS,
{
    let t = (tick as i64) + delta;
    if t < 0 {
        0
    } else if t > (CYCLE_TICKS - 1) as i64 {
        CYCLE_TICKS - 1
    } else {
        t as u32
    }
}

// --- Finding and replacing tracks -------------------------------------------------------

/// The position of the first track of `kind` among `effects`.
pub open spec fn track_of(effects: Seq<TrackModel>, kind: EffectKind) -> Option<int> {
    track_of_from(effects, kind, 0)
}

pub open spec fn track_of_from(effects: Seq<TrackModel>, kind: EffectKind, from: int) -> Option<int>
    decreases effects.len() - from,
{
    if from < 0 || from >= effects.len() {
        None
    } else if effects[from].kind == kind {
        Some(from)
    } else {
        track_of_from(effects, kind, from + 1)
    }
}

pub proof fn lemma_track_of_from(effects: Seq<TrackModel>, kind: EffectKind, from: int)
    requires
        0 <= from,
    ensures
        track_of_from(effects, kind, from) matches Some(j) ==> from <= j < effects.len()
            && effects[j].kind == kind,
    decreases effects.len() - from,
{
    if from < effects.len() && effects[from].kind != kind {
        lemma_track_of_from(effects, kind, from + 1);
    }
}

/// Where the track of `kind` on layer `id` lives: `(layer position, track
/// position)`.
pub open spec fn track_at(s: Seq<LayerModel>, id: LayerId, kind: EffectKind) -> Option<(int, int)> {
    match position_of(s, id) {
        Some(i) => match track_of(s[i].effects, kind) {
            Some(j) => Some((i, j)),
            None => None,
        },
        None => None,
    }
}

/// `s` with the keys of track `(i, j)` replaced by `keys`.
pub open spec fn with_track_keys(s: Seq<LayerModel>, i: int, j: int, keys: Seq<EffectKey>) -> Seq<
    LayerModel,
> {
    s.update(
        i,
        LayerModel {
            effects: s[i].effects.update(j, TrackModel { kind: s[i].effects[j].kind, keys }),
            ..s[i]
        },
    )
}

/// Finds the track of `kind` on layer `id`.
pub fn find_track(stack: &LayerStack, id: LayerId, kind: EffectKind) -> (r: Option<(usize, usize)>)
    ensures
        r matches Some((i, j)) ==> track_at(stack@, id, kind) == Some((i as int, j as int)),
        r is None ==> track_at(stack@, id, kind) is None,
        r matches Some((i, j)) ==> i < stack@.len() && j < stack@[i as int].effects.len(),
{
    proof {
        lemma_position_of_from(stack@, id, 0);
    }
    match stack.position(id) {
        Some(i) => {
            proof {
                assert(stack@.len() == stack.layers@.len());
                assert(stack@[i as int] == stack.layers@[i as int]@);
                lemma_track_of_from(stack@[i as int].effects, kind, 0);
            }
            let effects = &stack.layers[i].effects;
            let mut j: usize = 0;
            while j < effects.len()
                invariant
                    j <= effects@.len(),
                    i < stack@.len(),
                    position_of(stack@, id) == Some(i as int),
                    tracks_view(effects@) == stack@[i as int].effects,
                    track_of(stack@[i as int].effects, kind) == track_of_from(
                        stack@[i as int].effects,
                        kind,
                        j as int,
                    ),
                decreases effects@.len() - j,
            {
                proof {
                    assert(tracks_view(effects@)[j as int] == effects@[j as int]@);
                }
                if effects[j].kind == kind {
                    return Some((i, j));
                }
                j = j + 1;
            }
            None
        },
        None => None,
    }
}

/// Replaces the keys of track `j` of layer `i`.
pub fn set_track_keys(stack: &mut LayerStack, i: usize, j: usize, keys: Vec<EffectKey>)
    requires
        i < old(stack)@.len(),
        j < old(stack)@[i as int].effects.len(),
    ensures
        final(stack)@ == with_track_keys(old(stack)@, i as int, j as int, keys@),
{
    proof {
        assert(stack@.len() == stack.layers@.len());
        assert(stack@[i as int] == stack.layers@[i as int]@);
    }
    let mut layer = stack.layers[i].copy();
    let ghost before_effects = layer.effects@;
    let kind = layer.effects[j].kind;
    let _ = layer.effects.remove(j);
    layer.effects.insert(j, EffectTrack { kind, keys });
    proof {
        assert(tracks_view(layer.effects@) =~= stack@[i as int].effects.update(
            j as int,
            TrackModel { kind: stack@[i as int].effects[j as int].kind, keys: keys@ },
        ));
    }
    let ghost before = stack.layers@;
    let _ = stack.layers.remove(i);
    stack.layers.insert(i, layer);
    proof {
        assert(stack.layers@ =~= before.update(i as int, layer));
        assert(stack@ =~= with_track_keys(old(stack)@, i as int, j as int, keys@));
    }
}

// --- Selection ----------------------------------------------------------------------------

/// The keys of one track, as selection entries, filtered by tick.
pub open spec fn track_sel(id: LayerId, t: TrackModel, tick: Option<u32>) -> Seq<SelKey>
    decreases t.keys.len(),
{
    if t.keys.len() == 0 {
        Seq::empty()
    } else {
        let rest = track_sel(id, TrackModel { kind: t.kind, keys: t.keys.drop_last() }, tick);
        let k = t.keys.last();
        if tick matches Some(x) && k.tick != x {
            rest
        } else {
            rest.push(SelKey { layer: id, kind: t.kind, tick: k.tick })
        }
    }
}

/// The keys of a layer's first `n` tracks, as selection entries.
pub open spec fn layer_sel(l: LayerModel, n: int, tick: Option<u32>) -> Seq<SelKey>
    decreases n,
{
    if n <= 0 {
        Seq::empty()
    } else {
        layer_sel(l, n - 1, tick) + track_sel(l.id, l.effects[n - 1], tick)
    }
}

/// Every key of the first `n` layers matching the optional layer/tick
/// filters, as selection entries, in stack, track and key order.
pub open spec fn collect_spec(s: Seq<LayerModel>, n: int, layer: Option<LayerId>, tick: Option<u32>) -> Seq<
    SelKey,
>
    decreases n,
{
    if n <= 0 {
        Seq::empty()
    } else {
        let below = collect_spec(s, n - 1, layer, tick);
        let l = s[n - 1];
        if layer matches Some(id) && l.id != id {
            below
        } else {
            below + layer_sel(l, l.effects.len() as int, tick)
        }
    }
}

/// Every key of `stack` matching the optional layer/tick filters — the
/// collector behind column/all selection and the ripple scope.
pub fn collect_keys(stack: &LayerStack, layer: Option<LayerId>, tick: Option<u32>) -> (picked: Vec<SelKey>)
    ensures
        picked@ == collect_spec(stack@, stack@.len() as int, layer, tick),
{
    let mut picked: Vec<SelKey> = Vec::new();
    let mut i: usize = 0;
    while i < stack.layers.len()
        invariant
            i <= stack.layers@.len(),
            stack@.len() == stack.layers@.len(),
            picked@ == collect_spec(stack@, i as int, layer, tick),
        decreases stack.layers@.len() - i,
    {
        let candidate = &stack.layers[i];
        proof {
            assert(stack@[i as int] == candidate@);
        }
        let skip = match layer {
            Some(id) => candidate.id != id,
            None => false,
        };
        if !skip {
            let ghost base = picked@;
            let mut j: usize = 0;
            while j < candidate.effects.len()
                invariant
                    j <= candidate.effects@.len(),
                    picked@ == base + layer_sel(candidate@, j as int, tick),
                decreases candidate.effects@.len() - j,
            {
                let track = &candidate.effects[j];
                let ghost base2 = picked@;
                proof {
                    assert(candidate@.effects[j as int] == track@);
                }
                let mut k: usize = 0;
                while k < track.keys.len()
                    invariant
                        k <= track.keys@.len(),
                        picked@ == base2 + track_sel(
                            candidate.id,
                            TrackModel { kind: track.kind, keys: track.keys@.subrange(0, k as int) },
                            tick,
                        ),
                    decreases track.keys@.len() - k,
                {
                    let key = track.keys[k];
                    let take = match tick {
                        Some(t) => key.tick == t,
                        None => true,
                    };
                    proof {
                        assert(track.keys@.subrange(0, k + 1).drop_last() =~= track.keys@.subrange(
                            0,
                            k as int,
                        ));
                    }
                    if take {
                        picked.push(SelKey { layer: candidate.id, kind: track.kind, tick: key.tick });
                    }
                    k = k + 1;
                }
                proof {
                    assert(track.keys@.subrange(0, track.keys@.len() as int) =~= track.keys@);
                    assert(TrackModel { kind: track.kind, keys: track.keys@ } == track@);
                }
                j = j + 1;
            }
        }
        i = i + 1;
    }
    picked
}

// --- Snapshots for cancelling an edit ------------------------------------------------------

/// One snapshot entry.
pub struct SnapModel {
    pub layer: LayerId,
    pub kind: EffectKind,
    pub keys: Seq<EffectKey>,
}

pub open spec fn snap_view(v: Seq<TrackSnapshot>) -> Seq<SnapModel> {
    v.map_values(|e: TrackSnapshot| SnapModel { layer: e.layer, kind: e.kind, keys: e.keys@ })
}

/// The snapshot already holds the track `(layer, kind)`.
pub open spec fn snap_has(v: Seq<SnapModel>, layer: LayerId, kind: EffectKind) -> bool {
    exists|i: int| 0 <= i < v.len() && v[i].layer == layer && #[trigger] v[i].kind == kind
}

/// The snapshot of every track the first `n` selected keys touch, each track
/// once, in first-touched order.
pub open spec fn snapshot_spec(s: Seq<LayerModel>, keys: Seq<SelKey>, n: int) -> Seq<SnapModel>
    decreases n,
{
    if n <= 0 {
        Seq::empty()
    } else {
        let before = snapshot_spec(s, keys, n - 1);
        let k = keys[n - 1];
        if snap_has(before, k.layer, k.kind) {
            before
        } else {
            match track_at(s, k.layer, k.kind) {
                Some((i, j)) => before.push(
                    SnapModel { layer: k.layer, kind: k.kind, keys: s[i].effects[j].keys },
                ),
                None => before,
            }
        }
    }
}

/// Snapshots every track the selection touches (for cancel-restore).
pub fn snapshot(stack: &LayerStack, keys: &[SelKey]) -> (snap: Vec<TrackSnapshot>)
    ensures
        snap_view(snap@) == snapshot_spec(stack@, keys@, keys@.len() as int),
{
    let mut tracks: Vec<TrackSnapshot> = Vec::new();
    let mut n: usize = 0;
    while n < keys.len()
        invariant
            n <= keys@.len(),
            snap_view(tracks@) == snapshot_spec(stack@, keys@, n as int),
        decreases keys@.len() - n,
    {
        let key = keys[n];
        let mut seen = false;
        let mut q: usize = 0;
        while q < tracks.len()
            invariant
                q <= tracks@.len(),
                snap_view(tracks@) == snapshot_spec(stack@, keys@, n as int),
                seen == exists|x: int|
                    0 <= x < q && snap_view(tracks@)[x].layer == key.layer && #[trigger] snap_view(
                        tracks@,
                    )[x].kind == key.kind,
            decreases tracks@.len() - q,
        {
            if tracks[q].layer == key.layer && tracks[q].kind == key.kind {
                seen = true;
            }
            proof {
                assert(snap_view(tracks@)[q as int].layer == tracks@[q as int].layer);
                assert(snap_view(tracks@)[q as int].kind == tracks@[q as int].kind);
            }
            q = q + 1;
        }
        if !seen {
            match find_track(stack, key.layer, key.kind) {
                Some((i, j)) => {
                    proof {
                        assert(stack@[i as int] == stack.layers@[i as int]@);
                        assert(stack@[i as int].effects[j as int] == stack.layers@[i as int].effects@[j as int]@);
                    }
                    let copy = copy_vec(&stack.layers[i].effects[j].keys);
                    tracks.push(TrackSnapshot { layer: key.layer, kind: key.kind, keys: copy });
                    proof {
                        assert(snap_view(tracks@) =~= snapshot_spec(stack@, keys@, n as int).push(
                            SnapModel {
                                layer: key.layer,
                                kind: key.kind,
                                keys: stack@[i as int].effects[j as int].keys,
                            },
                        ));
                    }
                },
                None => {},
            }
        }
        n = n + 1;
    }
    tracks
}

/// The stack after restoring the first `n` snapshot entries, in order.
pub open spec fn restore_spec(s: Seq<LayerModel>, snap: Seq<SnapModel>, n: int) -> Seq<LayerModel>
    decreases n,
{
    if n <= 0 {
        s
    } else {
        let before = restore_spec(s, snap, n - 1);
        let e = snap[n - 1];
        match track_at(before, e.layer, e.kind) {
            Some((i, j)) => with_track_keys(before, i, j, e.keys),
            None => before,
        }
    }
}

/// Puts every snapshotted track's keys back (cancel).
pub fn restore(stack: &mut LayerStack, saved: &Vec<TrackSnapshot>)
    ensures
        final(stack)@ == restore_spec(old(stack)@, snap_view(saved@), saved@.len() as int),
{
    let mut n: usize = 0;
    while n < saved.len()
        invariant
            n <= saved@.len(),
            stack@ == restore_spec(old(stack)@, snap_view(saved@), n as int),
        decreases saved@.len() - n,
    {
        let e = &saved[n];
        proof {
            assert(snap_view(saved@)[n as int] == SnapModel {
                layer: e.layer,
                kind: e.kind,
                keys: e.keys@,
            });
        }
        match find_track(stack, e.layer, e.kind) {
            Some((i, j)) => {
                let keys = copy_vec(&e.keys);
                set_track_keys(stack, i, j, keys);
            },
            None => {},
        }
        n = n + 1;
    }
}

/// Restoring a snapshot taken of the current stack changes nothing.
pub proof fn law_restore_right_after_snapshot_is_identity(s: Seq<LayerModel>, keys: Seq<SelKey>, n: int)
    requires
        0 <= n <= keys.len(),
    ensures
        restore_spec(s, snapshot_spec(s, keys, n), snapshot_spec(s, keys, n).len() as int) == s,
    decreases n,
{
    if n > 0 {
        law_restore_right_after_snapshot_is_identity(s, keys, n - 1);
        let before = snapshot_spec(s, keys, n - 1);
        let now = snapshot_spec(s, keys, n);
        lemma_restore_prefix(s, now, before.len() as int);
        if now.len() > before.len() {
            let k = keys[n - 1];
            let (i, j) = track_at(s, k.layer, k.kind)->0;
            assert(now.drop_last() == before);
            assert(restore_spec(s, now, before.len() as int) == restore_spec(
                s,
                before,
                before.len() as int,
            ));
            lemma_track_at(s, k.layer, k.kind);
            assert(with_track_keys(s, i, j, s[i].effects[j].keys) =~= s) by {
                assert(s[i].effects.update(
                    j,
                    TrackModel { kind: s[i].effects[j].kind, keys: s[i].effects[j].keys },
                ) =~= s[i].effects);
            }
        }
    }
}

pub proof fn lemma_track_at(s: Seq<LayerModel>, id: LayerId, kind: EffectKind)
    ensures
        track_at(s, id, kind) matches Some((i, j)) ==> 0 <= i < s.len() && 0 <= j
            < s[i].effects.len() && s[i].id == id && s[i].effects[j].kind == kind,
{
    lemma_position_of_from(s, id, 0);
    if let Some(i) = position_of(s, id) {
        lemma_track_of_from(s[i].effects, kind, 0);
    }
}

/// Restoring a prefix of a snapshot depends only on that prefix.
pub proof fn lemma_restore_prefix(s: Seq<LayerModel>, snap: Seq<SnapModel>, m: int)
    requires
        0 <= m <= snap.len(),
    ensures
        restore_spec(s, snap, m) == restore_spec(s, snap.subrange(0, m), m),
    decreases m,
{
    if m > 0 {
        lemma_restore_prefix(s, snap, m - 1);
        lemma_restore_prefix(s, snap.subrange(0, m), m - 1);
        assert(snap.subrange(0, m).subrange(0, m - 1) =~= snap.subrange(0, m - 1));
        assert(snap.subrange(0, m)[m - 1] == snap[m - 1]);
    }
}

// --- Moving keys --------------------------------------------------------------------------

/// `t` is the tick of a selected key of track `(layer, kind)`.
pub open spec fn is_moved(base: Seq<SelKey>, layer: LayerId, kind: EffectKind, t: u32) -> bool {
    exists|b: int|
        0 <= b < base.len() && base[b].layer == layer && base[b].kind == kind && #[trigger] base[b].tick
            == t
}

/// Whether a key of track `(layer, kind)` at tick `t` shifts: with `from`
/// set, every key at or after it (a ripple); else the selected ones.
pub open spec fn shifts(base: Seq<SelKey>, from: Option<u32>, layer: LayerId, kind: EffectKind, t: u32) -> bool {
    match from {
        Some(o) => t >= o,
        None => is_moved(base, layer, kind, t),
    }
}

/// The snapshotted keys of a track with the shifting ones moved by `delta`.
pub open spec fn moved_keys(
    keys: Seq<EffectKey>,
    base: Seq<SelKey>,
    from: Option<u32>,
    layer: LayerId,
    kind: EffectKind,
    delta: int,
) -> Seq<EffectKey> {
    keys.map_values(
        |k: EffectKey|
            if shifts(base, from, layer, kind, k.tick) {
                EffectKey { tick: shift_tick_spec(k.tick, delta), ..k }
            } else {
                k
            },
    )
}

/// Whether some selected key of `(layer, kind)` sits at tick `t`.
fn selected_at(base: &[SelKey], layer: LayerId, kind: EffectKind, t: u32) -> (r: bool)
    ensures
        r == is_moved(base@, layer, kind, t),
{
    let mut b: usize = 0;
    while b < base.len()
        invariant
            b <= base@.len(),
            forall|x: int|
                0 <= x < b ==> !(base@[x].layer == layer && base@[x].kind == kind && #[trigger] base@[x].tick
                    == t),
        decreases base@.len() - b,
    {
        let s = base[b];
        if s.layer == layer && s.kind == kind && s.tick == t {
            return true;
        }
        b = b + 1;
    }
    false
}

/// Shifting any key of `snap` by `delta` stays inside `i64`.
pub open spec fn fits_shift(snap: Seq<SnapModel>, delta: int) -> bool {
    forall|e: int, x: int|
        0 <= e < snap.len() && 0 <= x < snap[e].keys.len() ==> #[trigger] snap[e].keys[x].tick + delta
            <= i64::MAX
}

/// The track `(e.layer, e.kind)` of `s`, where it exists, holds the keys of
/// `e` with the selected ones shifted by `delta`, normalized.
pub open spec fn shows_move(
    s: Seq<LayerModel>,
    e: SnapModel,
    base: Seq<SelKey>,
    from: Option<u32>,
    delta: int,
) -> bool {
    match track_at(s, e.layer, e.kind) {
        Some((i, j)) => normalized_of(
            s[i].effects[j].keys,
            moved_keys(e.keys, base, from, e.layer, e.kind, delta),
        ),
        None => true,
    }
}

/// Entry `e` is the last of the first `n` entries naming its track.
pub open spec fn last_entry(snap: Seq<SnapModel>, e: int, n: int) -> bool {
    forall|f: int| e < f < n ==> !(#[trigger] snap[f].layer == snap[e].layer && snap[f].kind == snap[e].kind)
}

/// `a` is `b` with, at most, the keys of the tracks named in `snap` replaced:
/// every layer, its flags and its tracks' kinds stay where they were.
pub open spec fn keys_only_changed(a: Seq<LayerModel>, b: Seq<LayerModel>, snap: Seq<SnapModel>) -> bool {
    &&& a.len() == b.len()
    &&& forall|i: int|
        0 <= i < a.len() ==> {
            &&& #[trigger] a[i].id == b[i].id
            &&& a[i].name == b[i].name
            &&& a[i].kind == b[i].kind
            &&& a[i].muted == b[i].muted
            &&& a[i].solo == b[i].solo
            &&& a[i].locked == b[i].locked
            &&& a[i].effects.len() == b[i].effects.len()
        }
    &&& forall|i: int, j: int|
        0 <= i < a.len() && 0 <= j < a[i].effects.len() ==> {
            &&& #[trigger] a[i].effects[j].kind == b[i].effects[j].kind
            &&& (a[i].effects[j].keys != b[i].effects[j].keys ==> snap_has(
                snap,
                a[i].id,
                a[i].effects[j].kind,
            ) && track_at(b, a[i].id, a[i].effects[j].kind) == Some((i, j)))
        }
}

/// Re-derives every snapshotted track from its saved keys with the
/// shifting ones moved by `delta` (tick-clamped), then normalized (the
/// collision rule decides any key landing on another). Only snapshotted
/// tracks change.
fn shift_tracks(
    stack: &mut LayerStack,
    saved: &Vec<TrackSnapshot>,
    base: &[SelKey],
    from: Option<u32>,
    delta: i64,
)
    requires
        fits_shift(snap_view(saved@), delta as int),
    ensures
        keys_only_changed(final(stack)@, old(stack)@, snap_view(saved@)),
        forall|e: int|
            0 <= e < saved@.len() && last_entry(snap_view(saved@), e, saved@.len() as int)
                ==> #[trigger] shows_move(final(stack)@, snap_view(saved@)[e], base@, from, delta as int),
{
    let ghost snap = snap_view(saved@);
    let mut n: usize = 0;
    while n < saved.len()
        invariant
            n <= saved@.len(),
            snap == snap_view(saved@),
            fits_shift(snap, delta as int),
            keys_only_changed(stack@, old(stack)@, snap),
            forall|id: LayerId, kind: EffectKind| #[trigger] track_at(stack@, id, kind) == track_at(old(stack)@, id, kind),
            forall|e: int|
                0 <= e < n && last_entry(snap, e, n as int) ==> #[trigger] shows_move(
                    stack@,
                    snap[e],
                    base@,
                    from,
                    delta as int,
                ),
        decreases saved@.len() - n,
    {
        let e = &saved[n];
        proof {
            assert(snap[n as int] == SnapModel { layer: e.layer, kind: e.kind, keys: e.keys@ });
        }
        let mut shifted: Vec<EffectKey> = Vec::new();
        let mut k: usize = 0;
        proof {
            assert forall|x: int| 0 <= x < e.keys@.len() implies #[trigger] e.keys@[x].tick + delta
                <= i64::MAX by {
                assert(snap[n as int].keys[x] == e.keys@[x]);
            }
        }
        while k < e.keys.len()
            invariant
                k <= e.keys@.len(),
                forall|x: int| 0 <= x < e.keys@.len() ==> #[trigger] e.keys@[x].tick + delta <= i64::MAX,
                shifted@ == moved_keys(e.keys@.subrange(0, k as int), base@, from, e.layer, e.kind, delta as int),
            decreases e.keys@.len() - k,
        {
            let key = e.keys[k];
            let go = match from {
                Some(o) => key.tick >= o,
                None => selected_at(base, e.layer, e.kind, key.tick),
            };
            let next = if go {
                EffectKey { tick: shift_tick(key.tick, delta), ..key }
            } else {
                key
            };
            shifted.push(next);
            proof {
                assert(moved_keys(e.keys@.subrange(0, k + 1), base@, from, e.layer, e.kind, delta as int)
                    =~= moved_keys(e.keys@.subrange(0, k as int), base@, from, e.layer, e.kind, delta as int).push(
                    next,
                ));
            }
            k = k + 1;
        }
        proof {
            assert(e.keys@.subrange(0, e.keys@.len() as int) =~= e.keys@);
        }
        let ghost before = stack@;
        match find_track(stack, e.layer, e.kind) {
            Some((i, j)) => {
                let mut track = EffectTrack { kind: e.kind, keys: shifted };
                normalize(&mut track);
                set_track_keys(stack, i, j, track.keys);
                proof {
                    lemma_track_at(before, e.layer, e.kind);
                    assert forall|x: int|
                        0 <= x < n + 1 && last_entry(snap, x, n + 1) implies #[trigger] shows_move(
                        stack@,
                        snap[x],
                        base@,
                        from,
                        delta as int,
                    ) by {
                        lemma_track_at_after_set(before, i as int, j as int, track.keys@, snap[x].layer, snap[x].kind);
                        if x < n {
                            assert(last_entry(snap, x, n as int));
                            assert(!(snap[n as int].layer == snap[x].layer && snap[n as int].kind == snap[x].kind));
                            lemma_track_at(before, snap[x].layer, snap[x].kind);
                            assert(shows_move(before, snap[x], base@, from, delta as int));
                        }
                    }
                    assert(snap_has(snap, e.layer, e.kind)) by {
                        assert(snap[n as int].kind == e.kind);
                    }
                    assert forall|id: LayerId, kind: EffectKind| #[trigger] track_at(stack@, id, kind)
                        == track_at(old(stack)@, id, kind) by {
                        lemma_track_at_after_set(before, i as int, j as int, track.keys@, id, kind);
                        assert(track_at(before, id, kind) == track_at(old(stack)@, id, kind));
                    }
                    assert forall|a: int, b: int|
                        0 <= a < stack@.len() && 0 <= b < stack@[a].effects.len() implies {
                            &&& #[trigger] stack@[a].effects[b].kind == old(stack)@[a].effects[b].kind
                            &&& (stack@[a].effects[b].keys != old(stack)@[a].effects[b].keys ==> snap_has(
                                snap,
                                stack@[a].id,
                                stack@[a].effects[b].kind,
                            ) && track_at(old(stack)@, stack@[a].id, stack@[a].effects[b].kind) == Some((a, b)))
                        } by {
                        assert(before[a].effects.len() == stack@[a].effects.len());
                        if a == i && b == j {
                            assert(track_at(before, e.layer, e.kind) == Some((i as int, j as int)));
                            assert(track_at(old(stack)@, e.layer, e.kind) == Some((i as int, j as int)));
                        } else {
                            assert(stack@[a].effects[b] == before[a].effects[b]);
                        }
                    }
                    assert forall|a: int| 0 <= a < stack@.len() implies {
                            &&& #[trigger] stack@[a].id == old(stack)@[a].id
                            &&& stack@[a].name == old(stack)@[a].name
                            &&& stack@[a].kind == old(stack)@[a].kind
                            &&& stack@[a].muted == old(stack)@[a].muted
                            &&& stack@[a].solo == old(stack)@[a].solo
                            &&& stack@[a].locked == old(stack)@[a].locked
                            &&& stack@[a].effects.len() == old(stack)@[a].effects.len()
                        } by {
                        assert(before[a].id == old(stack)@[a].id);
                    }
                }
            },
            None => {
                proof {
                    assert forall|x: int|
                        0 <= x < n + 1 && last_entry(snap, x, n + 1) implies #[trigger] shows_move(
                        stack@,
                        snap[x],
                        base@,
                        from,
                        delta as int,
                    ) by {
                        if x < n {
                            assert(last_entry(snap, x, n as int));
                        }
                    }
                }
            },
        }
        n = n + 1;
    }
}

/// Applies `delta` to the `base` keys against the `saved` snapshot — the
/// move preview: for each snapshotted track, the saved keys with the
/// selected ones shifted to their (tick-clamped) homes, then normalized (the
/// collision rule decides any key landing on another). Only snapshotted
/// tracks change.
pub fn apply_move(stack: &mut LayerStack, saved: &Vec<TrackSnapshot>, base: &[SelKey], delta: i64)
    requires
        fits_shift(snap_view(saved@), delta as int),
    ensures
        keys_only_changed(final(stack)@, old(stack)@, snap_view(saved@)),
        forall|e: int|
            0 <= e < saved@.len() && last_entry(snap_view(saved@), e, saved@.len() as int)
                ==> #[trigger] shows_move(final(stack)@, snap_view(saved@)[e], base@, None, delta as int),
{
    shift_tracks(stack, saved, base, None, delta);
}

/// The ripple preview: every snapshotted track re-derived from its saved
/// keys, those at or after `origin` shifted by `delta`, then normalized.
pub fn apply_ripple(stack: &mut LayerStack, saved: &Vec<TrackSnapshot>, origin: u32, delta: i64)
    requires
        fits_shift(snap_view(saved@), delta as int),
    ensures
        keys_only_changed(final(stack)@, old(stack)@, snap_view(saved@)),
        forall|e: int|
            0 <= e < saved@.len() && last_entry(snap_view(saved@), e, saved@.len() as int)
                ==> #[trigger] shows_move(
                final(stack)@,
                snap_view(saved@)[e],
                Seq::<SelKey>::empty(),
                Some(origin),
                delta as int,
            ),
{
    let none: Vec<SelKey> = Vec::new();
    shift_tracks(stack, saved, none.as_slice(), Some(origin), delta);
    proof {
        assert(none@ =~= Seq::<SelKey>::empty());
    }
}

// --- Key operations on the selection ---------------------------------------------------

/// A selected key of track `(i, j)` of `s` sits at tick `t`.
pub open spec fn hits(s: Seq<LayerModel>, sel: Seq<SelKey>, i: int, j: int, t: u32) -> bool {
    exists|b: int|
        0 <= b < sel.len() && sel[b].tick == t && #[trigger] track_at(s, sel[b].layer, sel[b].kind)
            == Some((i, j))
}

/// No earlier key of `keys` shares the tick of key `x` (the one a tick
/// lookup finds).
pub open spec fn first_at(keys: Seq<EffectKey>, x: int) -> bool {
    forall|y: int| 0 <= y < x ==> keys[y].tick != keys[x].tick
}

/// What a selection operation does to every selected key.
#[derive(Clone, Copy, PartialEq, Eq, Debug, Structural)]
pub enum KeyOp {
    /// Remove the keys.
    Delete,
    /// Give the keys this ease.
    Ease(EaseKind),
    /// Append a copy of each selected key to its track, in selection order.
    Duplicate,
}

/// The first key of `keys` at tick `t`, searching from `x` on.
pub open spec fn key_at_from(keys: Seq<EffectKey>, t: u32, x: int) -> Option<EffectKey>
    decreases keys.len() - x,
{
    if x < 0 || x >= keys.len() {
        None
    } else if keys[x].tick == t {
        Some(keys[x])
    } else {
        key_at_from(keys, t, x + 1)
    }
}

/// The copies the first `n` selected keys add to track `(i, j)` of `s`.
pub open spec fn copies(s: Seq<LayerModel>, sel: Seq<SelKey>, i: int, j: int, n: int) -> Seq<EffectKey>
    decreases n,
{
    if n <= 0 {
        Seq::empty()
    } else {
        let before = copies(s, sel, i, j, n - 1);
        let b = sel[n - 1];
        if track_at(s, b.layer, b.kind) == Some((i, j)) {
            match key_at_from(s[i].effects[j].keys, b.tick, 0) {
                Some(k) => before.push(k),
                None => before,
            }
        } else {
            before
        }
    }
}

/// Track `(i, j)`'s keys after `op` on the selection `sel`.
pub open spec fn rewritten(s: Seq<LayerModel>, sel: Seq<SelKey>, op: KeyOp, i: int, j: int) -> Seq<
    EffectKey,
> {
    let keys = s[i].effects[j].keys;
    match op {
        KeyOp::Delete => keys.filter(|k: EffectKey| !hits(s, sel, i, j, k.tick)),
        KeyOp::Duplicate => keys + copies(s, sel, i, j, sel.len() as int),
        KeyOp::Ease(e) => Seq::new(
            keys.len(),
            |x: int|
                if first_at(keys, x) && hits(s, sel, i, j, keys[x].tick) {
                    EffectKey { ease: e, ..keys[x] }
                } else {
                    keys[x]
                },
        ),
    }
}

/// Track `(a, b)` comes before track `(i, j)` in stack-then-track order.
pub open spec fn done_before(a: int, b: int, i: int, j: int) -> bool {
    a < i || (a == i && b < j)
}

/// `s` with the tracks before `(i, j)` rewritten by `op`.
pub open spec fn rewritten_upto(s: Seq<LayerModel>, sel: Seq<SelKey>, op: KeyOp, i: int, j: int) -> Seq<
    LayerModel,
> {
    Seq::new(
        s.len(),
        |a: int|
            LayerModel {
                effects: Seq::new(
                    s[a].effects.len(),
                    |b: int|
                        TrackModel {
                            kind: s[a].effects[b].kind,
                            keys: if done_before(a, b, i, j) {
                                rewritten(s, sel, op, a, b)
                            } else {
                                s[a].effects[b].keys
                            },
                        },
                ),
                ..s[a]
            },
    )
}

/// `s` with every track rewritten by `op` on the selection `sel`.
pub open spec fn rewritten_all(s: Seq<LayerModel>, sel: Seq<SelKey>, op: KeyOp) -> Seq<LayerModel> {
    rewritten_upto(s, sel, op, s.len() as int, 0)
}

/// Where each selected key's track lives.
fn locate(stack: &LayerStack, sel: &Vec<SelKey>) -> (locs: Vec<Option<(usize, usize)>>)
    ensures
        locs@.len() == sel@.len(),
        forall|b: int|
            0 <= b < sel@.len() ==> match #[trigger] locs@[b] {
                Some((i, j)) => track_at(stack@, sel@[b].layer, sel@[b].kind) == Some(
                    (i as int, j as int),
                ),
                None => track_at(stack@, sel@[b].layer, sel@[b].kind) is None,
            },
{
    let mut locs: Vec<Option<(usize, usize)>> = Vec::new();
    let mut b: usize = 0;
    while b < sel.len()
        invariant
            b <= sel@.len(),
            locs@.len() == b,
            forall|x: int|
                0 <= x < b ==> match #[trigger] locs@[x] {
                    Some((i, j)) => track_at(stack@, sel@[x].layer, sel@[x].kind) == Some(
                        (i as int, j as int),
                    ),
                    None => track_at(stack@, sel@[x].layer, sel@[x].kind) is None,
                },
        decreases sel@.len() - b,
    {
        locs.push(find_track(stack, sel[b].layer, sel[b].kind));
        b = b + 1;
    }
    locs
}

/// Whether a selected key of track `(i, j)` sits at tick `t`.
fn hit(sel: &Vec<SelKey>, locs: &Vec<Option<(usize, usize)>>, i: usize, j: usize, t: u32, Ghost(s): Ghost<
    Seq<LayerModel>,
>) -> (r: bool)
    requires
        locs@.len() == sel@.len(),
        forall|b: int|
            0 <= b < sel@.len() ==> match #[trigger] locs@[b] {
                Some((x, y)) => track_at(s, sel@[b].layer, sel@[b].kind) == Some((x as int, y as int)),
                None => track_at(s, sel@[b].layer, sel@[b].kind) is None,
            },
    ensures
        r == hits(s, sel@, i as int, j as int, t),
{
    let mut b: usize = 0;
    while b < sel.len()
        invariant
            b <= sel@.len(),
            locs@.len() == sel@.len(),
            forall|x: int|
                0 <= x < sel@.len() ==> match #[trigger] locs@[x] {
                    Some((p, q)) => track_at(s, sel@[x].layer, sel@[x].kind) == Some((p as int, q as int)),
                    None => track_at(s, sel@[x].layer, sel@[x].kind) is None,
                },
            forall|x: int|
                0 <= x < b ==> !(sel@[x].tick == t && #[trigger] track_at(s, sel@[x].layer, sel@[x].kind)
                    == Some((i as int, j as int))),
        decreases sel@.len() - b,
    {
        let here = match locs[b] {
            Some((p, q)) => p == i && q == j,
            None => false,
        };
        if here && sel[b].tick == t {
            return true;
        }
        proof {
            let _ = locs@[b as int];
        }
        b = b + 1;
    }
    false
}

/// The first key of `keys` at tick `t`.
fn key_at(keys: &Vec<EffectKey>, t: u32) -> (r: Option<EffectKey>)
    ensures
        r == key_at_from(keys@, t, 0),
{
    let mut x: usize = 0;
    while x < keys.len()
        invariant
            x <= keys@.len(),
            key_at_from(keys@, t, 0) == key_at_from(keys@, t, x as int),
        decreases keys@.len() - x,
    {
        if keys[x].tick == t {
            return Some(keys[x]);
        }
        x = x + 1;
    }
    None
}

/// Track `(i, j)`'s keys after `op`.
fn rewrite_track(
    keys: &Vec<EffectKey>,
    sel: &Vec<SelKey>,
    locs: &Vec<Option<(usize, usize)>>,
    op: KeyOp,
    i: usize,
    j: usize,
    Ghost(s): Ghost<Seq<LayerModel>>,
) -> (r: Vec<EffectKey>)
    requires
        0 <= i < s.len(),
        0 <= j < s[i as int].effects.len(),
        keys@ == s[i as int].effects[j as int].keys,
        locs@.len() == sel@.len(),
        forall|b: int|
            0 <= b < sel@.len() ==> match #[trigger] locs@[b] {
                Some((x, y)) => track_at(s, sel@[b].layer, sel@[b].kind) == Some((x as int, y as int)),
                None => track_at(s, sel@[b].layer, sel@[b].kind) is None,
            },
    ensures
        r@ == rewritten(s, sel@, op, i as int, j as int),
{
    let dup = match op {
        KeyOp::Duplicate => true,
        _ => false,
    };
    if dup {
        let mut r = copy_vec(keys);
        let mut b: usize = 0;
        while b < sel.len()
            invariant
                b <= sel@.len(),
                0 <= i < s.len(),
                0 <= j < s[i as int].effects.len(),
                keys@ == s[i as int].effects[j as int].keys,
                locs@.len() == sel@.len(),
                forall|x: int|
                    0 <= x < sel@.len() ==> match #[trigger] locs@[x] {
                        Some((p, q)) => track_at(s, sel@[x].layer, sel@[x].kind) == Some((p as int, q as int)),
                        None => track_at(s, sel@[x].layer, sel@[x].kind) is None,
                    },
                r@ == keys@ + copies(s, sel@, i as int, j as int, b as int),
            decreases sel@.len() - b,
        {
            let here = match locs[b] {
                Some((p, q)) => p == i && q == j,
                None => false,
            };
            proof {
                let _ = locs@[b as int];
            }
            if here {
                let t = sel[b].tick;
                let found = key_at(keys, t);
                let ghost before = r@;
                match found {
                    Some(k) => {
                        r.push(k);
                    },
                    None => {},
                }
                proof {
                    assert(found == key_at_from(keys@, t, 0));
                    assert(r@ =~= keys@ + copies(s, sel@, i as int, j as int, b + 1));
                }
            }
            b = b + 1;
        }
        return r;
    }
    let ghost pred = |k: EffectKey| !hits(s, sel@, i as int, j as int, k.tick);
    let mut r: Vec<EffectKey> = Vec::new();
    let mut x: usize = 0;
    while x < keys.len()
        invariant
            x <= keys@.len(),
            0 <= i < s.len(),
            0 <= j < s[i as int].effects.len(),
            keys@ == s[i as int].effects[j as int].keys,
            locs@.len() == sel@.len(),
            forall|b: int|
                0 <= b < sel@.len() ==> match #[trigger] locs@[b] {
                    Some((p, q)) => track_at(s, sel@[b].layer, sel@[b].kind) == Some((p as int, q as int)),
                    None => track_at(s, sel@[b].layer, sel@[b].kind) is None,
                },
            pred == (|k: EffectKey| !hits(s, sel@, i as int, j as int, k.tick)),
            op is Delete ==> r@ == keys@.subrange(0, x as int).filter(pred),
            op matches KeyOp::Ease(e) ==> r@ == Seq::new(
                x as nat,
                |y: int|
                    if first_at(keys@, y) && hits(s, sel@, i as int, j as int, keys@[y].tick) {
                        EffectKey { ease: e, ..keys@[y] }
                    } else {
                        keys@[y]
                    },
            ),
        decreases keys@.len() - x,
    {
        let k = keys[x];
        let h = hit(sel, locs, i, j, k.tick, Ghost(s));
        match op {
            KeyOp::Delete => {
                proof {
                    assert(keys@.subrange(0, x + 1).drop_last() =~= keys@.subrange(0, x as int));
                    assert(keys@.subrange(0, x + 1).last() == k);
                    assert(pred(k) == !h);
                    reveal(Seq::filter);
                }
                if !h {
                    r.push(k);
                }
            },
            KeyOp::Duplicate => {},
            KeyOp::Ease(e) => {
                let mut first = true;
                let mut y: usize = 0;
                while y < x
                    invariant
                        y <= x < keys@.len(),
                        k == keys@[x as int],
                        first == forall|z: int| 0 <= z < y ==> keys@[z].tick != k.tick,
                    decreases x - y,
                {
                    if keys[y].tick == k.tick {
                        first = false;
                    }
                    y = y + 1;
                }
                let ghost before = r@;
                if first && h {
                    r.push(EffectKey { ease: e, ..k });
                } else {
                    r.push(k);
                }
                proof {
                    assert(r@ =~= Seq::new(
                        (x + 1) as nat,
                        |y: int|
                            if first_at(keys@, y) && hits(s, sel@, i as int, j as int, keys@[y].tick) {
                                EffectKey { ease: e, ..keys@[y] }
                            } else {
                                keys@[y]
                            },
                    ));
                }
            },
        }
        x = x + 1;
    }
    proof {
        assert(keys@.subrange(0, keys@.len() as int) =~= keys@);
    }
    r
}

/// Rewrites every track of `stack` by `op` on the selection `sel`.
fn rewrite_keys(stack: &mut LayerStack, sel: &Vec<SelKey>, op: KeyOp)
    ensures
        final(stack)@ == rewritten_all(old(stack)@, sel@, op),
{
    let ghost s = stack@;
    let locs = locate(stack, sel);
    proof {
        assert(rewritten_upto(s, sel@, op, 0, 0) =~= s) by {
            assert forall|a: int| 0 <= a < s.len() implies rewritten_upto(s, sel@, op, 0, 0)[a]
                =~= s[a] by {
                assert(rewritten_upto(s, sel@, op, 0, 0)[a].effects =~= s[a].effects);
            }
        }
    }
    let mut i: usize = 0;
    while i < stack.layers.len()
        invariant
            i <= stack.layers@.len(),
            stack@.len() == stack.layers@.len(),
            stack@.len() == s.len(),
            stack@ == rewritten_upto(s, sel@, op, i as int, 0),
            locs@.len() == sel@.len(),
            forall|b: int|
                0 <= b < sel@.len() ==> match #[trigger] locs@[b] {
                    Some((p, q)) => track_at(s, sel@[b].layer, sel@[b].kind) == Some((p as int, q as int)),
                    None => track_at(s, sel@[b].layer, sel@[b].kind) is None,
                },
        decreases stack.layers@.len() - i,
    {
        let n = stack.layers[i].effects.len();
        proof {
            assert(stack@[i as int] == stack.layers@[i as int]@);
            assert(stack@[i as int].effects.len() == stack.layers@[i as int].effects@.len());
            assert(rewritten_upto(s, sel@, op, i as int, 0)[i as int].effects.len() == s[i as int].effects.len());
            assert(n == s[i as int].effects.len());
        }
        let mut j: usize = 0;
        while j < n
            invariant
                i < stack.layers@.len(),
                j <= n,
                n == s[i as int].effects.len(),
                stack@.len() == stack.layers@.len(),
                stack@.len() == s.len(),
                stack@ == rewritten_upto(s, sel@, op, i as int, j as int),
                locs@.len() == sel@.len(),
                forall|b: int|
                    0 <= b < sel@.len() ==> match #[trigger] locs@[b] {
                        Some((p, q)) => track_at(s, sel@[b].layer, sel@[b].kind) == Some((p as int, q as int)),
                        None => track_at(s, sel@[b].layer, sel@[b].kind) is None,
                    },
            decreases n - j,
        {
            proof {
                assert(stack@[i as int] == stack.layers@[i as int]@);
                assert(rewritten_upto(s, sel@, op, i as int, j as int)[i as int].effects.len() == s[i as int].effects.len());
                assert(stack@[i as int].effects.len() == stack.layers@[i as int].effects@.len());
                assert(stack@[i as int].effects[j as int] == stack.layers@[i as int].effects@[j as int]@);
                assert(stack@[i as int].effects[j as int].keys == s[i as int].effects[j as int].keys);
            }
            let new_keys = rewrite_track(&stack.layers[i].effects[j].keys, sel, &locs, op, i, j, Ghost(s));
            set_track_keys(stack, i, j, new_keys);
            proof {
                let t = rewritten_upto(s, sel@, op, i as int, j + 1);
                assert forall|a: int| 0 <= a < s.len() implies stack@[a] =~= t[a] by {
                    assert(stack@[a].effects =~= t[a].effects);
                }
                assert(stack@ =~= t);
            }
            j = j + 1;
        }
        proof {
            let t = rewritten_upto(s, sel@, op, i + 1, 0);
            assert forall|a: int| 0 <= a < s.len() implies stack@[a] =~= t[a] by {
                assert(stack@[a].effects =~= t[a].effects);
            }
            assert(stack@ =~= t);
        }
        i = i + 1;
    }
}

/// `X`/`Del`: removes every selected key from its track.
pub fn delete_selected(stack: &mut LayerStack, sel: &Vec<SelKey>)
    ensures
        final(stack)@ == rewritten_all(old(stack)@, sel@, KeyOp::Delete),
{
    rewrite_keys(stack, sel, KeyOp::Delete);
}

/// `Shift+D`: appends a copy of each selected key to its track (the move
/// that follows places the copies).
pub fn duplicate_selected(stack: &mut LayerStack, sel: &Vec<SelKey>)
    ensures
        final(stack)@ == rewritten_all(old(stack)@, sel@, KeyOp::Duplicate),
{
    rewrite_keys(stack, sel, KeyOp::Duplicate);
}

/// Gives every selected key the ease `ease`.
pub fn set_ease(stack: &mut LayerStack, sel: &Vec<SelKey>, ease: EaseKind)
    ensures
        final(stack)@ == rewritten_all(old(stack)@, sel@, KeyOp::Ease(ease)),
{
    rewrite_keys(stack, sel, KeyOp::Ease(ease));
}

/// After a delete, no selected key is left on its track; every key kept was
/// on the track before.
pub proof fn law_deleted_keys_are_gone(s: Seq<LayerModel>, sel: Seq<SelKey>, i: int, j: int)
    requires
        0 <= i < s.len(),
        0 <= j < s[i].effects.len(),
    ensures
        forall|x: int|
            0 <= x < rewritten(s, sel, KeyOp::Delete, i, j).len() ==> !hits(
                s,
                sel,
                i,
                j,
                #[trigger] rewritten(s, sel, KeyOp::Delete, i, j)[x].tick,
            ) && s[i].effects[j].keys.contains(rewritten(s, sel, KeyOp::Delete, i, j)[x]),
{
    let keys = s[i].effects[j].keys;
    let pred = |k: EffectKey| !hits(s, sel, i, j, k.tick);
    assert forall|x: int| 0 <= x < keys.filter(pred).len() implies !hits(
        s,
        sel,
        i,
        j,
        #[trigger] keys.filter(pred)[x].tick,
    ) && keys.contains(keys.filter(pred)[x]) by {
        keys.lemma_filter_pred(pred, x);
        assert(keys.filter(pred).contains(keys.filter(pred)[x]));
        keys.lemma_filter_contains_rev(pred, keys.filter(pred)[x]);
    }
}

/// Setting an ease moves no key and changes no value: only eases differ.
pub proof fn law_ease_keeps_ticks_and_values(s: Seq<LayerModel>, sel: Seq<SelKey>, e: EaseKind, i: int, j: int)
    requires
        0 <= i < s.len(),
        0 <= j < s[i].effects.len(),
    ensures
        rewritten(s, sel, KeyOp::Ease(e), i, j).len() == s[i].effects[j].keys.len(),
        forall|x: int|
            0 <= x < s[i].effects[j].keys.len() ==> (#[trigger] rewritten(s, sel, KeyOp::Ease(e), i, j)[x]).tick
                == s[i].effects[j].keys[x].tick && rewritten(s, sel, KeyOp::Ease(e), i, j)[x].value_bits
                == s[i].effects[j].keys[x].value_bits,
{
}

// --- Inserting keys and jumping between them ------------------------------------------

/// The stack after inserting `key` into the track of `kind` on layer `i`:
/// the track (created at the end of the layer's tracks when missing) holds
/// its old keys plus `key`, normalized.
pub open spec fn inserted(old: Seq<LayerModel>, new: Seq<LayerModel>, i: int, kind: EffectKind, key: EffectKey) -> bool {
    &&& new.len() == old.len()
    &&& forall|a: int| 0 <= a < old.len() && a != i ==> new[a] == old[a]
    &&& new[i].id == old[i].id && new[i].name == old[i].name && new[i].kind == old[i].kind
    &&& new[i].muted == old[i].muted && new[i].solo == old[i].solo && new[i].locked == old[i].locked
    &&& match track_of(old[i].effects, kind) {
        Some(j) => {
            &&& new[i].effects.len() == old[i].effects.len()
            &&& forall|b: int| 0 <= b < old[i].effects.len() && b != j ==> new[i].effects[b] == old[i].effects[b]
            &&& new[i].effects[j].kind == kind
            &&& normalized_of(new[i].effects[j].keys, old[i].effects[j].keys.push(key))
        },
        None => new[i].effects == old[i].effects.push(TrackModel { kind, keys: seq![key] }),
    }
}

/// `I` (Scale) / `Shift+I` (Opacity): inserts a key at the playhead on layer
/// `layer`, valued `value_bits` (the track's sampled value there, which the
/// caller computes). The new key is the selection. A layer that is not on
/// the stack changes nothing.
pub fn insert_key(stack: &mut LayerStack, layer: LayerId, kind: EffectKind, playhead: u32, value_bits: u32) -> (sel:
    Option<SelKey>)
    ensures
        match position_of(old(stack)@, layer) {
            Some(i) => {
                &&& sel == Some(SelKey { layer, kind, tick: playhead })
                &&& inserted(
                    old(stack)@,
                    final(stack)@,
                    i,
                    kind,
                    EffectKey { tick: playhead, value_bits, ease: EaseKind::Linear },
                )
            },
            None => sel is None && final(stack)@ == old(stack)@,
        },
{
    let key = EffectKey { tick: playhead, value_bits, ease: EaseKind::Linear };
    proof {
        lemma_position_of_from(stack@, layer, 0);
    }
    let i = match stack.position(layer) {
        Some(i) => i,
        None => {
            return None;
        },
    };
    proof {
        assert(stack@.len() == stack.layers@.len());
        assert(stack@[i as int] == stack.layers@[i as int]@);
    }
    match find_track(stack, layer, kind) {
        Some((p, j)) => {
            let mut track = stack.layers[p].effects[j].copy();
            proof {
                assert(stack@[p as int].effects[j as int] == stack.layers@[p as int].effects@[j as int]@);
            }
            let ghost before = track.keys@;
            track.keys.push(key);
            normalize(&mut track);
            let ghost old_s = stack@;
            set_track_keys(stack, p, j, track.keys);
            proof {
                assert(p == i);
                lemma_track_at(old_s, layer, kind);
                assert(old_s[i as int].effects[j as int].kind == kind);
                assert forall|b: int| 0 <= b < old_s[i as int].effects.len() && b != j implies stack@[i as int].effects[b]
                    == old_s[i as int].effects[b] by {}
            }
        },
        None => {
            let mut l = stack.layers[i].copy();
            let ghost old_s = stack@;
            proof {
                assert(track_at(old_s, layer, kind) is None);
                assert(track_of(old_s[i as int].effects, kind) is None);
            }
            let ghost le = l.effects@;
            let mut ks: Vec<EffectKey> = Vec::new();
            ks.push(key);
            let t = EffectTrack { kind, keys: ks };
            proof {
                assert(t.keys@ =~= seq![key]);
                assert(t@ == TrackModel { kind, keys: seq![key] });
                assert(tracks_view(le) == old_s[i as int].effects);
            }
            l.effects.push(t);
            proof {
                assert(l.effects@ == le.push(t));
                assert(tracks_view(le.push(t)) =~= tracks_view(le).push(t@));
            }
            let ghost before = stack.layers@;
            let _ = stack.layers.remove(i);
            stack.layers.insert(i, l);
            proof {
                assert(stack.layers@ =~= before.update(i as int, l));
                assert(tracks_view(l.effects@) =~= old_s[i as int].effects.push(TrackModel { kind, keys: seq![key] }));
                assert forall|a: int| 0 <= a < old_s.len() && a != i implies stack@[a] == old_s[a] by {
                    assert(stack.layers@[a] == before[a]);
                }
            }
        },
    }
    Some(SelKey { layer, kind, tick: playhead })
}

/// The key ticks of the layers matching `focus` (every layer when `None`).
pub open spec fn key_ticks(s: Seq<LayerModel>, focus: Option<LayerId>) -> Seq<u32> {
    collect_spec(s, s.len() as int, focus, None).map_values(|k: SelKey| k.tick)
}

/// `t` is the next (`forward`) or previous key tick around `tick` among `ticks`.
pub open spec fn jump_spec(ticks: Seq<u32>, tick: u32, forward: bool, t: Option<u32>) -> bool {
    if forward {
        match t {
            Some(x) => ticks.contains(x) && x > tick && forall|y: u32| #[trigger] ticks.contains(y) && y > tick ==> x <= y,
            None => forall|y: u32| #[trigger] ticks.contains(y) ==> y <= tick,
        }
    } else {
        match t {
            Some(x) => ticks.contains(x) && x < tick && forall|y: u32| #[trigger] ticks.contains(y) && y < tick ==> y <= x,
            None => forall|y: u32| #[trigger] ticks.contains(y) ==> y >= tick,
        }
    }
}

/// `K`/`J`: the tick of the next (`forward`) or previous key of the focused
/// layer (every layer without a focus) around the playhead, if any.
pub fn jump_target(stack: &LayerStack, focus: Option<LayerId>, tick: u32, forward: bool) -> (t: Option<u32>)
    ensures
        jump_spec(key_ticks(stack@, focus), tick, forward, t),
{
    let keys = collect_keys(stack, focus, None);
    let ghost ticks = key_ticks(stack@, focus);
    let mut best: Option<u32> = None;
    let mut i: usize = 0;
    while i < keys.len()
        invariant
            i <= keys@.len(),
            ticks == keys@.map_values(|k: SelKey| k.tick),
            jump_spec(ticks.subrange(0, i as int), tick, forward, best),
        decreases keys@.len() - i,
    {
        let t = keys[i].tick;
        let ghost pre = ticks.subrange(0, i as int);
        proof {
            assert(ticks.subrange(0, i + 1) =~= pre.push(t));
            assert(ticks[i as int] == t);
        }
        if forward {
            if t > tick {
                match best {
                    Some(b) => if t < b {
                        best = Some(t);
                    },
                    None => {
                        best = Some(t);
                    },
                }
            }
        } else {
            if t < tick {
                match best {
                    Some(b) => if t > b {
                        best = Some(t);
                    },
                    None => {
                        best = Some(t);
                    },
                }
            }
        }
        proof {
            let post = ticks.subrange(0, i + 1);
            assert forall|y: u32| post.contains(y) implies pre.contains(y) || y == t by {
                let w = choose|w: int| 0 <= w < post.len() && post[w] == y;
                if w < i {
                    assert(pre[w] == y);
                }
            }
            assert(post.contains(t)) by {
                assert(post[i as int] == t);
            }
            assert forall|y: u32| pre.contains(y) implies post.contains(y) by {
                let w = choose|w: int| 0 <= w < pre.len() && pre[w] == y;
                assert(post[w] == y);
            }
        }
        i = i + 1;
    }
    proof {
        assert(ticks.subrange(0, keys@.len() as int) =~= ticks);
    }
    best
}

// --- Eases ------------------------------------------------------------------------------

/// The palette `T` cycles through.
pub open spec fn ease_cycle() -> Seq<EaseKind> {
    seq![
        EaseKind::Linear,
        EaseKind::SineInOut,
        EaseKind::CubicInOut,
        EaseKind::ExpoOut,
        EaseKind::BackOut,
        EaseKind::ElasticOut,
        EaseKind::BounceOut,
        EaseKind::Hold,
    ]
}

/// The ease after `current` in the cycle; an ease outside the cycle (or no
/// key) starts it over.
pub open spec fn next_ease_spec(current: Option<EaseKind>) -> EaseKind {
    match current {
        Some(e) => if ease_cycle().contains(e) {
            ease_cycle()[(ease_cycle().index_of(e) + 1) % 8]
        } else {
            EaseKind::Linear
        },
        None => EaseKind::Linear,
    }
}

/// `T`: the next ease of the cycle after `current`.
pub fn next_ease(current: Option<EaseKind>) -> (e: EaseKind)
    ensures
        e == next_ease_spec(current),
{
    proof {
        let c = ease_cycle();
        assert(c[0] == EaseKind::Linear);
        assert(c[1] == EaseKind::SineInOut);
        assert(c[2] == EaseKind::CubicInOut);
        assert(c[3] == EaseKind::ExpoOut);
        assert(c[4] == EaseKind::BackOut);
        assert(c[5] == EaseKind::ElasticOut);
        assert(c[6] == EaseKind::BounceOut);
        assert(c[7] == EaseKind::Hold);
        match current {
            Some(e) => if c.contains(e) {
                let w = c.index_of(e);
                assert(c[w] == e);
            },
            None => {},
        }
    }
    match current {
        Some(EaseKind::Linear) => EaseKind::SineInOut,
        Some(EaseKind::SineInOut) => EaseKind::CubicInOut,
        Some(EaseKind::CubicInOut) => EaseKind::ExpoOut,
        Some(EaseKind::ExpoOut) => EaseKind::BackOut,
        Some(EaseKind::BackOut) => EaseKind::ElasticOut,
        Some(EaseKind::ElasticOut) => EaseKind::BounceOut,
        Some(EaseKind::BounceOut) => EaseKind::Hold,
        _ => EaseKind::Linear,
    }
}

/// `F9` gives ease-in-out, `Shift+F9` ease-in, `Ctrl+Shift+F9` ease-out.
pub fn f9_ease(ctrl: bool, shift: bool) -> (e: EaseKind)
    ensures
        e == (if ctrl && shift {
            EaseKind::SineOut
        } else if shift {
            EaseKind::SineIn
        } else {
            EaseKind::SineInOut
        }),
{
    if ctrl && shift {
        EaseKind::SineOut
    } else if shift {
        EaseKind::SineIn
    } else {
        EaseKind::SineInOut
    }
}

/// The ease of the first selected key, if it is on the stack.
pub open spec fn first_ease_spec(s: Seq<LayerModel>, sel: Seq<SelKey>) -> Option<EaseKind> {
    if sel.len() == 0 {
        None
    } else {
        match track_at(s, sel[0].layer, sel[0].kind) {
            Some((i, j)) => match key_at_from(s[i].effects[j].keys, sel[0].tick, 0) {
                Some(k) => Some(k.ease),
                None => None,
            },
            None => None,
        }
    }
}

/// The ease of the first selected key: what `T` cycles from.
pub fn first_ease(stack: &LayerStack, sel: &Vec<SelKey>) -> (e: Option<EaseKind>)
    ensures
        e == first_ease_spec(stack@, sel@),
{
    if sel.len() == 0 {
        return None;
    }
    match find_track(stack, sel[0].layer, sel[0].kind) {
        Some((i, j)) => {
            proof {
                assert(stack@[i as int] == stack.layers@[i as int]@);
                assert(stack@[i as int].effects[j as int] == stack.layers@[i as int].effects@[j as int]@);
            }
            match key_at(&stack.layers[i].effects[j].keys, sel[0].tick) {
                Some(k) => Some(k.ease),
                None => None,
            }
        },
        None => None,
    }
}

/// The interpolation panel's summary of a selection of `count` keys whose
/// first key eases with `ease`, with the keys that edit it.
pub open spec fn ease_panel_text(count: u32, ease: EaseKind) -> Seq<char> {
    decimal_digits(count as nat) + " key"@ + (if count == 1 {
        Seq::empty()
    } else {
        seq!['s']
    }) + " \u{b7} "@ + ease_name(ease) + " \u{b7} T cycle \u{b7} H hold \u{b7} F9 ease"@
}

/// The interpolation panel's summary line.
pub fn ease_panel_line(count: u32, ease: EaseKind) -> (s: String)
    ensures
        s@ == ease_panel_text(count, ease),
{
    let mut chars = padded_digits(count, 1);
    proof {
        lemma_decimal_digits(count as nat);
        assert(chars@ =~= decimal_digits(count as nat));
    }
    chars.append(&mut chars_of(" key"));
    if count != 1 {
        chars.push('s');
    }
    chars.append(&mut chars_of(" \u{b7} "));
    chars.append(&mut chars_of(ease.name()));
    chars.append(&mut chars_of(" \u{b7} T cycle \u{b7} H hold \u{b7} F9 ease"));
    proof {
        assert(chars@ =~= ease_panel_text(count, ease));
    }
    string_from_chars(&chars)
}

// --- Moving the selection ---------------------------------------------------------------

/// The selection with every tick shifted by `delta` (clamped into the cycle).
pub open spec fn shifted_sel(sel: Seq<SelKey>, delta: int) -> Seq<SelKey> {
    sel.map_values(|k: SelKey| SelKey { tick: shift_tick_spec(k.tick, delta), ..k })
}

/// The selection after a move by `delta`: it follows the keys it moved.
pub fn shift_selection(sel: &Vec<SelKey>, delta: i64) -> (r: Vec<SelKey>)
    requires
        forall|b: int| 0 <= b < sel@.len() ==> #[trigger] sel@[b].tick + delta <= i64::MAX,
    ensures
        r@ == shifted_sel(sel@, delta as int),
{
    let mut r: Vec<SelKey> = Vec::new();
    let mut b: usize = 0;
    while b < sel.len()
        invariant
            b <= sel@.len(),
            forall|x: int| 0 <= x < sel@.len() ==> #[trigger] sel@[x].tick + delta <= i64::MAX,
            r@ == shifted_sel(sel@.subrange(0, b as int), delta as int),
        decreases sel@.len() - b,
    {
        let k = sel[b];
        r.push(SelKey { tick: shift_tick(k.tick, delta), ..k });
        proof {
            assert(shifted_sel(sel@.subrange(0, b + 1), delta as int) =~= shifted_sel(
                sel@.subrange(0, b as int),
                delta as int,
            ).push(SelKey { tick: shift_tick_spec(k.tick, delta as int), ..k }));
        }
        b = b + 1;
    }
    proof {
        assert(sel@.subrange(0, sel@.len() as int) =~= sel@);
    }
    r
}

/// The ticks every key of a snapshot sits on are ticks of the stack: each
/// `u32`, so a nudge of at most 15 ticks always fits.
pub proof fn lemma_small_shifts_fit(snap: Seq<SnapModel>, delta: int)
    requires
        -15 <= delta <= 15,
    ensures
        fits_shift(snap, delta),
{
}

/// What a nudge of the selection `sel` by one tick (fifteen when `coarse`),
/// later or earlier, does: only the snapshotted tracks change, each shows
/// the selected keys moved by that much, and the selection follows them.
pub open spec fn nudged(
    old_stack: Seq<LayerModel>,
    new_stack: Seq<LayerModel>,
    sel: Seq<SelKey>,
    new_sel: Seq<SelKey>,
    later: bool,
    coarse: bool,
) -> bool {
    let step: int = if coarse {
        15
    } else {
        1
    };
    let delta: int = if later {
        step
    } else {
        -step
    };
    let snap = snapshot_spec(old_stack, sel, sel.len() as int);
    &&& keys_only_changed(new_stack, old_stack, snap)
    &&& forall|e: int|
        0 <= e < snap.len() && last_entry(snap, e, snap.len() as int) ==> #[trigger] shows_move(
            new_stack,
            snap[e],
            sel,
            None,
            delta,
        )
    &&& new_sel == shifted_sel(sel, delta)
}

/// `Alt+→`/`Alt+←`: nudges the selection one tick (fifteen with `Shift`)
/// later or earlier; the selection follows its keys.
pub fn nudge_selection(stack: &mut LayerStack, sel: &mut Vec<SelKey>, later: bool, coarse: bool)
    ensures
        nudged(old(stack)@, final(stack)@, old(sel)@, final(sel)@, later, coarse),
{
    let step: i64 = if coarse {
        15
    } else {
        1
    };
    let delta: i64 = if later {
        step
    } else {
        -step
    };
    let saved = snapshot(stack, sel.as_slice());
    proof {
        lemma_small_shifts_fit(snap_view(saved@), delta as int);
    }
    apply_move(stack, &saved, sel.as_slice(), delta);
    let moved = shift_selection(sel, delta);
    *sel = moved;
}

// --- Cancelling an edit ---------------------------------------------------------------

/// `a` and `b` have the same layers, flags and tracks, keys aside.
pub open spec fn same_shape(a: Seq<LayerModel>, b: Seq<LayerModel>) -> bool {
    &&& a.len() == b.len()
    &&& forall|i: int|
        0 <= i < a.len() ==> {
            &&& #[trigger] a[i].id == b[i].id
            &&& a[i].name == b[i].name
            &&& a[i].kind == b[i].kind
            &&& a[i].muted == b[i].muted
            &&& a[i].solo == b[i].solo
            &&& a[i].locked == b[i].locked
            &&& a[i].effects.len() == b[i].effects.len()
        }
    &&& forall|i: int, j: int|
        0 <= i < a.len() && 0 <= j < a[i].effects.len() ==> #[trigger] a[i].effects[j].kind
            == b[i].effects[j].kind
}

/// An edit that changed only keys leaves the stack's shape alone.
proof fn lemma_keys_only_changed_same_shape(a: Seq<LayerModel>, b: Seq<LayerModel>, snap: Seq<SnapModel>)
    requires
        keys_only_changed(a, b, snap),
    ensures
        same_shape(a, b),
{
    assert forall|i: int, j: int| 0 <= i < a.len() && 0 <= j < a[i].effects.len() implies #[trigger] a[i].effects[j].kind
        == b[i].effects[j].kind by {
        assert(a[i].effects[j].kind == b[i].effects[j].kind);
    }
}

/// Stacks of the same shape find every track in the same place.
pub proof fn lemma_same_shape_track_at(a: Seq<LayerModel>, b: Seq<LayerModel>, id: LayerId, kind: EffectKind)
    requires
        same_shape(a, b),
    ensures
        track_at(a, id, kind) == track_at(b, id, kind),
{
    lemma_position_same_ids(a, b, id, 0);
    lemma_position_of_from(a, id, 0);
    if let Some(p) = position_of(a, id) {
        assert(a[p].effects.len() == b[p].effects.len());
        assert forall|x: int| 0 <= x < a[p].effects.len() implies a[p].effects[x].kind
            == b[p].effects[x].kind by {
            assert(a[p].effects[x].kind == b[p].effects[x].kind);
        }
        lemma_track_of_same_kinds(a[p].effects, b[p].effects, kind, 0);
    }
}

/// Every snapshot entry names a track of the stack it was taken of, holds
/// that track's keys, and names a different track than every other entry.
pub proof fn lemma_snapshot_entries(s: Seq<LayerModel>, keys: Seq<SelKey>, n: int)
    requires
        0 <= n <= keys.len(),
    ensures
        forall|e: int|
            0 <= e < snapshot_spec(s, keys, n).len() ==> {
                let x = #[trigger] snapshot_spec(s, keys, n)[e];
                track_at(s, x.layer, x.kind) matches Some((i, j)) && 0 <= i < s.len() && 0 <= j
                    < s[i].effects.len() && x.keys == s[i].effects[j].keys
            },
        forall|e: int, f: int|
            0 <= e < f < snapshot_spec(s, keys, n).len() ==> !(snapshot_spec(s, keys, n)[e].layer
                == snapshot_spec(s, keys, n)[f].layer && snapshot_spec(s, keys, n)[e].kind
                == snapshot_spec(s, keys, n)[f].kind),
    decreases n,
{
    if n > 0 {
        lemma_snapshot_entries(s, keys, n - 1);
        let k = keys[n - 1];
        lemma_track_at(s, k.layer, k.kind);
    }
}

/// After restoring the first `m` entries of `snap` onto `s2`, the tracks
/// they name hold the keys of `s`, every other track those of `s2`.
pub open spec fn restored_upto(r: Seq<LayerModel>, s: Seq<LayerModel>, s2: Seq<LayerModel>, snap: Seq<SnapModel>, m: int) -> bool {
    &&& same_shape(r, s)
    &&& forall|i: int, j: int|
        0 <= i < r.len() && 0 <= j < r[i].effects.len() ==> #[trigger] r[i].effects[j].keys == if exists|e: int|
            0 <= e < m && track_at(s, snap[e].layer, snap[e].kind) == Some((i, j)) {
            s[i].effects[j].keys
        } else {
            s2[i].effects[j].keys
        }
}

proof fn lemma_restore_steps(s: Seq<LayerModel>, s2: Seq<LayerModel>, snap: Seq<SnapModel>, m: int)
    requires
        same_shape(s2, s),
        0 <= m <= snap.len(),
        forall|e: int|
            0 <= e < snap.len() ==> {
                let x = #[trigger] snap[e];
                track_at(s, x.layer, x.kind) matches Some((i, j)) && 0 <= i < s.len() && 0 <= j
                    < s[i].effects.len() && x.keys == s[i].effects[j].keys
            },
    ensures
        restored_upto(restore_spec(s2, snap, m), s, s2, snap, m),
    decreases m,
{
    if m == 0 {
        assert(restore_spec(s2, snap, 0) == s2);
    } else {
        lemma_restore_steps(s, s2, snap, m - 1);
        let r = restore_spec(s2, snap, m - 1);
        let x = snap[m - 1];
        lemma_same_shape_track_at(r, s, x.layer, x.kind);
        let (i, j) = track_at(s, x.layer, x.kind)->0;
        let t = with_track_keys(r, i, j, x.keys);
        assert(restore_spec(s2, snap, m) == t);
        assert forall|a: int, b: int| 0 <= a < t.len() && 0 <= b < t[a].effects.len() implies #[trigger] t[a].effects[b].keys
            == if exists|e: int| 0 <= e < m && track_at(s, snap[e].layer, snap[e].kind) == Some((a, b)) {
            s[a].effects[b].keys
        } else {
            s2[a].effects[b].keys
        } by {
            if a == i && b == j {
                assert(track_at(s, snap[m - 1].layer, snap[m - 1].kind) == Some((a, b)));
            } else {
                assert(t[a].effects[b] == r[a].effects[b]);
                assert(r[a].effects[b].keys == if exists|e: int|
                    0 <= e < m - 1 && track_at(s, snap[e].layer, snap[e].kind) == Some((a, b)) {
                    s[a].effects[b].keys
                } else {
                    s2[a].effects[b].keys
                });
                if exists|e: int| 0 <= e < m && track_at(s, snap[e].layer, snap[e].kind) == Some((a, b)) {
                    let e = choose|e: int| 0 <= e < m && track_at(s, snap[e].layer, snap[e].kind) == Some((a, b));
                    assert(e != m - 1);
                }
            }
        }
        assert forall|a: int| 0 <= a < t.len() implies {
            &&& #[trigger] t[a].id == s[a].id
            &&& t[a].name == s[a].name
            &&& t[a].kind == s[a].kind
            &&& t[a].muted == s[a].muted
            &&& t[a].solo == s[a].solo
            &&& t[a].locked == s[a].locked
            &&& t[a].effects.len() == s[a].effects.len()
        } by {
            assert(r[a].id == s[a].id);
        }
        assert forall|a: int, b: int| 0 <= a < t.len() && 0 <= b < t[a].effects.len() implies #[trigger] t[a].effects[b].kind
            == s[a].effects[b].kind by {
            assert(r[a].effects[b].kind == s[a].effects[b].kind);
        }
    }
}

/// `Esc` restores exactly: whatever an in-flight edit did to the tracks its
/// snapshot names, restoring that snapshot gives back the stack the edit
/// began on.
pub proof fn law_cancel_restores_the_stack(s: Seq<LayerModel>, s2: Seq<LayerModel>, keys: Seq<SelKey>)
    requires
        keys_only_changed(s2, s, snapshot_spec(s, keys, keys.len() as int)),
    ensures
        restore_spec(
            s2,
            snapshot_spec(s, keys, keys.len() as int),
            snapshot_spec(s, keys, keys.len() as int).len() as int,
        ) == s,
{
    let snap = snapshot_spec(s, keys, keys.len() as int);
    lemma_snapshot_entries(s, keys, keys.len() as int);
    lemma_keys_only_changed_same_shape(s2, s, snap);
    lemma_restore_steps(s, s2, snap, snap.len() as int);
    let r = restore_spec(s2, snap, snap.len() as int);
    assert(r.len() == s.len());
    assert forall|a: int| 0 <= a < s.len() implies r[a] =~= s[a] by {
        assert(r[a].id == s[a].id);
        assert(s2[a].id == s[a].id);
        assert forall|b: int| 0 <= b < s[a].effects.len() implies r[a].effects[b] == s[a].effects[b] by {
            assert(r[a].effects[b].kind == s[a].effects[b].kind);
            if s2[a].effects[b].keys != s[a].effects[b].keys {
                assert(snap_has(snap, s2[a].id, s2[a].effects[b].kind));
                let e = choose|e: int| 0 <= e < snap.len() && snap[e].layer == s2[a].id && #[trigger] snap[e].kind
                    == s2[a].effects[b].kind;
                assert(track_at(s, snap[e].layer, snap[e].kind) == Some((a, b)));
            }
            assert(r[a].effects[b].keys == s[a].effects[b].keys);
        }
        assert(r[a].effects =~= s[a].effects);
    }
    assert(r =~= s);
}

/// Replacing one track's keys moves no track: every `(layer, kind)` is found
/// where it was, and other tracks keep their keys.
pub proof fn lemma_track_at_after_set(
    s: Seq<LayerModel>,
    i: int,
    j: int,
    keys: Seq<EffectKey>,
    id: LayerId,
    kind: EffectKind,
)
    requires
        0 <= i < s.len(),
        0 <= j < s[i].effects.len(),
    ensures
        track_at(with_track_keys(s, i, j, keys), id, kind) == track_at(s, id, kind),
        track_at(s, id, kind) matches Some((a, b)) ==> ((a, b) != (i, j) ==> with_track_keys(
            s,
            i,
            j,
            keys,
        )[a].effects[b].keys == s[a].effects[b].keys),
        track_at(s, id, kind) == Some((i, j)) ==> with_track_keys(s, i, j, keys)[i].effects[j].keys
            == keys,
{
    let t = with_track_keys(s, i, j, keys);
    lemma_position_same_ids(s, t, id, 0);
    lemma_track_at(s, id, kind);
    lemma_position_of_from(s, id, 0);
    if let Some(p) = position_of(s, id) {
        if p == i {
            assert(t[p].effects.len() == s[p].effects.len());
            assert forall|x: int| 0 <= x < s[p].effects.len() implies s[p].effects[x].kind
                == t[p].effects[x].kind by {
                if x == j {
                } else {
                    assert(t[p].effects[x] == s[p].effects[x]);
                }
            }
        } else {
            assert(t[p] == s[p]);
        }
        lemma_track_of_same_kinds(s[p].effects, t[p].effects, kind, 0);
    }
}

pub proof fn lemma_position_same_ids(s: Seq<LayerModel>, t: Seq<LayerModel>, id: LayerId, from: int)
    requires
        s.len() == t.len(),
        forall|x: int| 0 <= x < s.len() ==> s[x].id == t[x].id,
    ensures
        crate::layer::position_of_from(s, id, from) == crate::layer::position_of_from(t, id, from),
    decreases s.len() - from,
{
    if 0 <= from < s.len() {
        lemma_position_same_ids(s, t, id, from + 1);
    }
}

pub proof fn lemma_track_of_same_kinds(a: Seq<TrackModel>, b: Seq<TrackModel>, kind: EffectKind, from: int)
    requires
        a.len() == b.len(),
        forall|x: int| 0 <= x < a.len() ==> a[x].kind == b[x].kind,
    ensures
        track_of_from(a, kind, from) == track_of_from(b, kind, from),
    decreases a.len() - from,
{
    if 0 <= from < a.len() {
        lemma_track_of_same_kinds(a, b, kind, from + 1);
    }
}

/// A move by zero ticks changes no key (with every selected tick inside the
/// cycle): the preview of an un-moved selection is the snapshot itself.
pub proof fn law_zero_move_keeps_keys(
    keys: Seq<EffectKey>,
    base: Seq<SelKey>,
    layer: LayerId,
    kind: EffectKind,
)
    requires
        forall|i: int| 0 <= i < keys.len() ==> #[trigger] keys[i].tick < CYCLE_TICKS,
    ensures
        moved_keys(keys, base, None, layer, kind, 0) == keys,
        moved_keys(keys, base, Some(0), layer, kind, 0) == keys,
{
    assert(moved_keys(keys, base, None, layer, kind, 0) =~= keys);
    assert(moved_keys(keys, base, Some(0), layer, kind, 0) =~= keys);
}

// --- The sheet's edit focus ---------------------------------------------------

/// The sheet's edit focus: a focused layer row and the selected key pills.
#[derive(Debug)]
pub struct SheetSelection {
    pub layer: Option<LayerId>,
    pub keys: Vec<SelKey>,
}

impl Default for SheetSelection {
    fn default() -> (s: SheetSelection)
        ensures
            s.layer is None,
            s.keys@ == Seq::<SelKey>::empty(),
    {
        SheetSelection { layer: None, keys: Vec::new() }
    }
}

impl SheetSelection {
    /// A click on a layer's channel row focuses that layer; without `Shift`
    /// it also drops the key selection.
    pub fn click_row(&mut self, layer: LayerId, shift: bool)
        ensures
            final(self).layer == Some(layer),
            final(self).keys@ == if shift {
                old(self).keys@
            } else {
                Seq::<SelKey>::empty()
            },
    {
        self.layer = Some(layer);
        if !shift {
            self.keys.clear();
        }
    }

    /// A click on a key pill focuses its layer and selects it: alone, or with
    /// `Shift` added to the selection (once; an already selected pill stays
    /// where it is).
    pub fn click_pill(&mut self, pill: SelKey, shift: bool)
        ensures
            final(self).layer == Some(pill.layer),
            final(self).keys@ == if !shift {
                seq![pill]
            } else if old(self).keys@.contains(pill) {
                old(self).keys@
            } else {
                old(self).keys@.push(pill)
            },
    {
        self.layer = Some(pill.layer);
        if shift {
            let mut present = false;
            let mut i: usize = 0;
            while i < self.keys.len()
                invariant
                    i <= self.keys@.len(),
                    self.keys@ == old(self).keys@,
                    present <==> exists|k: int| 0 <= k < i && self.keys@[k] == pill,
                decreases self.keys@.len() - i,
            {
                if self.keys[i] == pill {
                    present = true;
                }
                i = i + 1;
            }
            if !present {
                self.keys.push(pill);
            }
        } else {
            self.keys = vec![pill];
        }
    }
}

} // verus!
