//! Layers — the authoring-side structure of an encounter.
//!
//! A [`LayerStack`] is the ordered list of layers one `(arena, difficulty)`
//! owns: the boss staff, any number of minion layers, and any number of tile
//! choreography layers. Playback never sees layers: at load/restart the stack
//! folds into the one master timeline and one merged tile schedule.
//!
//! Invariants:
//! - **Top wins.** Layers apply bottom→top, so where two tile layers claim
//!   the same cell at the same tick, the higher layer wins.
//! - **Mute folds to nothing; solo mutes the rest** (additive multi-solo).
//! - **Atomic publish.** The whole stack persists as one versioned file.

use vstd::prelude::*;

use crate::arena::{arena_index, Arena};
use crate::effect::{EffectKey, EffectTrack, TrackModel};
use crate::encounter::{validate_header, validate_header_spec, Difficulty, ScoreHeaderError};
use crate::grid::IVec2;
use crate::tile_script::{desired_spec, law_later_script_wins, TileKeyframe};
use crate::timeline::{
    copy_vec, fold, fold_result, Action, ArenaTimeline, GhostEvent, Recording, RecordingModel,
    TimelineEvent,
};

verus! {

/// File prefix of a layered encounter score (`layers.vNNNN.ron`).
pub const LAYERS_PREFIX: &'static str = "layers";

/// The layered score format (distinct from the legacy boss/tile format).
pub const LAYERS_FORMAT: u32 = 2;

/// A layer's stable identity within its stack. Never reused within a stack.
#[derive(Clone, Copy, PartialEq, Eq, Debug, Hash, Structural)]
pub struct LayerId(pub u32);

/// What a minion looks like / how it behaves.
#[derive(Clone, Copy, PartialEq, Eq, Debug, Structural)]
pub enum MinionArchetype {
    /// The placeholder token (a small theme-tinted disc).
    Token,
}

/// A minion layer: where/when it exists, plus its recorded staff. Recording
/// ticks are absolute cycle ticks; `spawn_tick..despawn_tick` is only the
/// visibility window.
#[derive(Debug)]
pub struct MinionLayer {
    pub archetype: MinionArchetype,
    pub spawn_tick: u32,
    pub despawn_tick: u32,
    pub spawn_tile: IVec2,
    pub recording: Recording,
}

/// One layer's content.
#[derive(Debug)]
pub enum LayerKind {
    /// The boss staff (one per stack by convention).
    Boss(Recording),
    /// A spawned minion with its own staff.
    Minion(MinionLayer),
    /// One tile-choreography instance; stack order resolves overlaps.
    Tiles(Vec<TileKeyframe>),
}

/// One authoring layer. `muted` and `effects` persist; `solo`/`locked` are
/// session-side UI state and never serialize.
#[derive(Debug)]
pub struct Layer {
    pub id: LayerId,
    pub name: String,
    pub kind: LayerKind,
    pub muted: bool,
    pub solo: bool,
    pub locked: bool,
    /// Non-destructive keyframed effects applied to the layer's bound entity.
    pub effects: Vec<EffectTrack>,
}

/// The ordered stack: index 0 = bottom, last = top.
#[derive(Debug)]
pub struct LayerStack {
    pub layers: Vec<Layer>,
}

// --- Models -------------------------------------------------------------------

#[verifier::ext_equal]
pub enum KindModel {
    Boss(RecordingModel),
    Minion {
        archetype: MinionArchetype,
        spawn_tick: u32,
        despawn_tick: u32,
        spawn_tile: IVec2,
        recording: RecordingModel,
    },
    Tiles(Seq<TileKeyframe>),
}

#[verifier::ext_equal]
pub struct LayerModel {
    pub id: LayerId,
    pub name: Seq<char>,
    pub kind: KindModel,
    pub muted: bool,
    pub solo: bool,
    pub locked: bool,
    pub effects: Seq<TrackModel>,
}

impl View for LayerKind {
    type V = KindModel;

    open spec fn view(&self) -> KindModel {
        match self {
            LayerKind::Boss(r) => KindModel::Boss(r@),
            LayerKind::Minion(m) => KindModel::Minion {
                archetype: m.archetype,
                spawn_tick: m.spawn_tick,
                despawn_tick: m.despawn_tick,
                spawn_tile: m.spawn_tile,
                recording: m.recording@,
            },
            LayerKind::Tiles(k) => KindModel::Tiles(k@),
        }
    }
}

pub open spec fn tracks_view(effects: Seq<EffectTrack>) -> Seq<TrackModel> {
    effects.map_values(|t: EffectTrack| t@)
}

impl View for Layer {
    type V = LayerModel;

    open spec fn view(&self) -> LayerModel {
        LayerModel {
            id: self.id,
            name: self.name@,
            kind: self.kind@,
            muted: self.muted,
            solo: self.solo,
            locked: self.locked,
            effects: tracks_view(self.effects@),
        }
    }
}

pub open spec fn layers_view(layers: Seq<Layer>) -> Seq<LayerModel> {
    layers.map_values(|l: Layer| l@)
}

impl View for LayerStack {
    type V = Seq<LayerModel>;

    open spec fn view(&self) -> Seq<LayerModel> {
        layers_view(self.layers@)
    }
}

/// The position of the first layer with id `id`.
pub open spec fn position_of(s: Seq<LayerModel>, id: LayerId) -> Option<int> {
    position_of_from(s, id, 0)
}

pub open spec fn position_of_from(s: Seq<LayerModel>, id: LayerId, from: int) -> Option<int>
    decreases s.len() - from,
{
    if from < 0 || from >= s.len() {
        None
    } else if s[from].id == id {
        Some(from)
    } else {
        position_of_from(s, id, from + 1)
    }
}

/// Any layer of `s` is soloed.
pub open spec fn any_solo(s: Seq<LayerModel>) -> bool {
    exists|i: int| 0 <= i < s.len() && #[trigger] s[i].solo
}

/// Layer `i` participates in a fold: solo wins over mute (any solo present →
/// only unmuted solos play), else every unmuted layer.
pub open spec fn is_effective(s: Seq<LayerModel>, i: int) -> bool {
    !s[i].muted && (!any_solo(s) || s[i].solo)
}

/// The positions below `n` of the layers that participate in a fold,
/// bottom→top.
pub open spec fn effective_upto(s: Seq<LayerModel>, n: int) -> Seq<int>
    decreases n,
{
    if n <= 0 {
        Seq::empty()
    } else if is_effective(s, n - 1) {
        effective_upto(s, n - 1).push(n - 1)
    } else {
        effective_upto(s, n - 1)
    }
}

/// The tile keyframes of the effective tile layers below `n`, bottom→top.
pub open spec fn merged_upto(s: Seq<LayerModel>, n: int) -> Seq<TileKeyframe>
    decreases n,
{
    if n <= 0 {
        Seq::empty()
    } else {
        let below = merged_upto(s, n - 1);
        if is_effective(s, n - 1) {
            match s[n - 1].kind {
                KindModel::Tiles(k) => below + k,
                _ => below,
            }
        } else {
            below
        }
    }
}

/// The staff a layer carries, if it is a boss or minion layer.
pub open spec fn staff_of(k: KindModel) -> Option<RecordingModel> {
    match k {
        KindModel::Boss(r) => Some(r),
        KindModel::Minion { recording, .. } => Some(recording),
        KindModel::Tiles(_) => None,
    }
}

/// The positions among `p` whose layers carry a staff, in order.
pub open spec fn keep_staffed(s: Seq<LayerModel>, p: Seq<int>) -> Seq<int>
    decreases p.len(),
{
    if p.len() == 0 {
        Seq::empty()
    } else if staff_of(s[p.last()].kind) is Some {
        keep_staffed(s, p.drop_last()).push(p.last())
    } else {
        keep_staffed(s, p.drop_last())
    }
}

/// The largest layer id of `s`, if any.
pub open spec fn max_id(s: Seq<LayerModel>) -> Option<u32>
    decreases s.len(),
{
    if s.len() == 0 {
        None
    } else {
        match max_id(s.drop_last()) {
            Some(m) => Some(if m >= s.last().id.0 { m } else { s.last().id.0 }),
            None => Some(s.last().id.0),
        }
    }
}

pub proof fn lemma_max_id(s: Seq<LayerModel>)
    ensures
        max_id(s) matches Some(m) ==> forall|i: int| 0 <= i < s.len() ==> s[i].id.0 <= m,
        max_id(s) is None <==> s.len() == 0,
    decreases s.len(),
{
    if s.len() > 0 {
        lemma_max_id(s.drop_last());
        assert forall|i: int| 0 <= i < s.len() - 1 implies s[i] == s.drop_last()[i] by {}
    }
}

// --- Copying and comparing ------------------------------------------------------

impl MinionLayer {
    pub fn copy(&self) -> (m: MinionLayer)
        ensures
            m.archetype == self.archetype,
            m.spawn_tick == self.spawn_tick,
            m.despawn_tick == self.despawn_tick,
            m.spawn_tile == self.spawn_tile,
            m.recording@ == self.recording@,
    {
        MinionLayer {
            archetype: self.archetype,
            spawn_tick: self.spawn_tick,
            despawn_tick: self.despawn_tick,
            spawn_tile: self.spawn_tile,
            recording: self.recording.copy(),
        }
    }
}

impl LayerKind {
    pub fn copy(&self) -> (k: LayerKind)
        ensures
            k@ == self@,
    {
        match self {
            LayerKind::Boss(r) => LayerKind::Boss(r.copy()),
            LayerKind::Minion(m) => LayerKind::Minion(m.copy()),
            LayerKind::Tiles(k) => LayerKind::Tiles(copy_vec(k)),
        }
    }
}

impl EffectTrack {
    pub fn copy(&self) -> (t: EffectTrack)
        ensures
            t@ == self@,
    {
        EffectTrack { kind: self.kind, keys: copy_vec(&self.keys) }
    }
}

/// A copy of a list of tracks.
pub fn copy_tracks(v: &Vec<EffectTrack>) -> (r: Vec<EffectTrack>)
    ensures
        tracks_view(r@) == tracks_view(v@),
{
    let mut r: Vec<EffectTrack> = Vec::new();
    let mut i: usize = 0;
    while i < v.len()
        invariant
            i <= v@.len(),
            tracks_view(r@) == tracks_view(v@.subrange(0, i as int)),
        decreases v@.len() - i,
    {
        r.push(v[i].copy());
        proof {
            assert(tracks_view(v@.subrange(0, i + 1)) =~= tracks_view(v@.subrange(0, i as int)).push(
                v@[i as int]@,
            ));
            assert(tracks_view(r@) =~= tracks_view(v@.subrange(0, i + 1)));
        }
        i = i + 1;
    }
    proof {
        assert(v@.subrange(0, v@.len() as int) =~= v@);
    }
    r
}

impl Layer {
    /// A fresh layer: unmuted, unsoloed, unlocked, with no effects.
    pub fn new(id: LayerId, name: String, kind: LayerKind) -> (l: Layer)
        ensures
            l@ == (LayerModel {
                id,
                name: name@,
                kind: kind@,
                muted: false,
                solo: false,
                locked: false,
                effects: Seq::empty(),
            }),
    {
        let l = Layer {
            id,
            name,
            kind,
            muted: false,
            solo: false,
            locked: false,
            effects: Vec::new(),
        };
        proof {
            assert(tracks_view(l.effects@) =~= Seq::<TrackModel>::empty());
        }
        l
    }

    pub fn copy(&self) -> (l: Layer)
        ensures
            l@ == self@,
    {
        Layer {
            id: self.id,
            name: self.name.clone(),
            kind: self.kind.copy(),
            muted: self.muted,
            solo: self.solo,
            locked: self.locked,
            effects: copy_tracks(&self.effects),
        }
    }
}

/// Two sequences of timeline events are equal, element by element.
fn same_events(a: &Vec<TimelineEvent>, b: &Vec<TimelineEvent>) -> (r: bool)
    ensures
        r == (a@ == b@),
{
    if a.len() != b.len() {
        return false;
    }
    let mut i: usize = 0;
    while i < a.len()
        invariant
            a@.len() == b@.len(),
            i <= a@.len(),
            forall|j: int| 0 <= j < i ==> a@[j] == b@[j],
        decreases a@.len() - i,
    {
        if a[i] != b[i] {
            return false;
        }
        i = i + 1;
    }
    proof {
        assert(a@ =~= b@);
    }
    true
}

/// Two sequences of tile keyframes are equal, element by element.
fn same_keyframes(a: &Vec<TileKeyframe>, b: &Vec<TileKeyframe>) -> (r: bool)
    ensures
        r == (a@ == b@),
{
    if a.len() != b.len() {
        return false;
    }
    let mut i: usize = 0;
    while i < a.len()
        invariant
            a@.len() == b@.len(),
            i <= a@.len(),
            forall|j: int| 0 <= j < i ==> a@[j] == b@[j],
        decreases a@.len() - i,
    {
        if a[i] != b[i] {
            return false;
        }
        i = i + 1;
    }
    proof {
        assert(a@ =~= b@);
    }
    true
}

/// Two sequences of effect keys are equal, element by element.
fn same_keys(a: &Vec<EffectKey>, b: &Vec<EffectKey>) -> (r: bool)
    ensures
        r == (a@ == b@),
{
    if a.len() != b.len() {
        return false;
    }
    let mut i: usize = 0;
    while i < a.len()
        invariant
            a@.len() == b@.len(),
            i <= a@.len(),
            forall|j: int| 0 <= j < i ==> a@[j] == b@[j],
        decreases a@.len() - i,
    {
        if a[i] != b[i] {
            return false;
        }
        i = i + 1;
    }
    proof {
        assert(a@ =~= b@);
    }
    true
}

fn same_recording(a: &Recording, b: &Recording) -> (r: bool)
    ensures
        r == (a@ == b@),
{
    let r = a.start == b.start && same_events(&a.events, &b.events);
    proof {
        if a.start == b.start && a.events@ == b.events@ {
            assert(a@ =~= b@);
        }
    }
    r
}

fn same_kind(a: &LayerKind, b: &LayerKind) -> (r: bool)
    ensures
        r == (a@ == b@),
{
    match (a, b) {
        (LayerKind::Boss(x), LayerKind::Boss(y)) => same_recording(x, y),
        (LayerKind::Minion(x), LayerKind::Minion(y)) => {
            x.archetype == y.archetype && x.spawn_tick == y.spawn_tick && x.despawn_tick
                == y.despawn_tick && x.spawn_tile == y.spawn_tile && same_recording(
                &x.recording,
                &y.recording,
            )
        },
        (LayerKind::Tiles(x), LayerKind::Tiles(y)) => same_keyframes(x, y),
        _ => false,
    }
}

fn same_tracks(a: &Vec<EffectTrack>, b: &Vec<EffectTrack>) -> (r: bool)
    ensures
        r == (tracks_view(a@) == tracks_view(b@)),
{
    if a.len() != b.len() {
        proof {
            assert(tracks_view(a@).len() != tracks_view(b@).len());
        }
        return false;
    }
    let mut i: usize = 0;
    while i < a.len()
        invariant
            a@.len() == b@.len(),
            i <= a@.len(),
            forall|j: int| 0 <= j < i ==> a@[j]@ == b@[j]@,
        decreases a@.len() - i,
    {
        if a[i].kind != b[i].kind || !same_keys(&a[i].keys, &b[i].keys) {
            proof {
                assert(tracks_view(a@)[i as int] != tracks_view(b@)[i as int]);
            }
            return false;
        }
        proof {
            assert(a@[i as int]@ =~= b@[i as int]@);
        }
        i = i + 1;
    }
    proof {
        assert(tracks_view(a@) =~= tracks_view(b@));
    }
    true
}

/// The persisted part of a layer: `solo`/`locked` are session UI state.
pub open spec fn persisted_eq(a: LayerModel, b: LayerModel) -> bool {
    a.name == b.name && a.muted == b.muted && a.kind == b.kind && a.effects == b.effects
}

fn same_persisted(a: &Layer, b: &Layer) -> (r: bool)
    ensures
        r == persisted_eq(a@, b@),
{
    a.name == b.name && a.muted == b.muted && same_kind(&a.kind, &b.kind) && same_tracks(
        &a.effects,
        &b.effects,
    )
}

// --- The stack ----------------------------------------------------------------

impl LayerStack {
    /// An empty stack.
    pub fn new() -> (s: LayerStack)
        ensures
            s@ == Seq::<LayerModel>::empty(),
    {
        let s = LayerStack { layers: Vec::new() };
        proof {
            assert(s@ =~= Seq::<LayerModel>::empty());
        }
        s
    }

    /// A copy of the whole stack.
    pub fn copy(&self) -> (s: LayerStack)
        ensures
            s@ == self@,
    {
        let mut layers: Vec<Layer> = Vec::new();
        let mut i: usize = 0;
        while i < self.layers.len()
            invariant
                i <= self.layers@.len(),
                layers_view(layers@) == layers_view(self.layers@.subrange(0, i as int)),
            decreases self.layers@.len() - i,
        {
            layers.push(self.layers[i].copy());
            proof {
                assert(layers_view(self.layers@.subrange(0, i + 1)) =~= layers_view(
                    self.layers@.subrange(0, i as int),
                ).push(self.layers@[i as int]@));
                assert(layers_view(layers@) =~= layers_view(self.layers@.subrange(0, i + 1)));
            }
            i = i + 1;
        }
        proof {
            assert(self.layers@.subrange(0, self.layers@.len() as int) =~= self.layers@);
        }
        LayerStack { layers }
    }

    /// The next unused [`LayerId`]: one past the largest id in the stack, or
    /// 0 for an empty stack. The largest id must leave room for another.
    pub fn next_id(&self) -> (id: LayerId)
        requires
            max_id(self@) matches Some(m) ==> m < u32::MAX,
        ensures
            id.0 == (match max_id(self@) {
                Some(m) => m + 1,
                None => 0,
            }),
            forall|i: int| 0 <= i < self@.len() ==> self@[i].id != id,
    {
        let mut best: Option<u32> = None;
        let mut i: usize = 0;
        while i < self.layers.len()
            invariant
                i <= self.layers@.len(),
                best == max_id(self@.subrange(0, i as int)),
            decreases self.layers@.len() - i,
        {
            let id = self.layers[i].id.0;
            proof {
                assert(self@.subrange(0, i + 1).drop_last() =~= self@.subrange(0, i as int));
                assert(self@.subrange(0, i + 1).last() == self@[i as int]);
            }
            best = match best {
                Some(m) => Some(if m >= id { m } else { id }),
                None => Some(id),
            };
            i = i + 1;
        }
        proof {
            assert(self@.subrange(0, self@.len() as int) =~= self@);
            lemma_max_id(self@);
        }
        match best {
            Some(m) => LayerId(m + 1),
            None => LayerId(0),
        }
    }

    /// The position of the layer with id `id`, if the stack holds one.
    pub fn position(&self, id: LayerId) -> (p: Option<usize>)
        ensures
            p matches Some(i) ==> position_of(self@, id) == Some(i as int),
            p is None ==> position_of(self@, id) is None,
    {
        let mut i: usize = 0;
        while i < self.layers.len()
            invariant
                i <= self.layers@.len(),
                position_of(self@, id) == position_of_from(self@, id, i as int),
            decreases self.layers@.len() - i,
        {
            if self.layers[i].id == id {
                return Some(i);
            }
            i = i + 1;
        }
        None
    }

    /// The layer with id `id`, if the stack holds one.
    pub fn layer(&self, id: LayerId) -> (l: Option<&Layer>)
        ensures
            l matches Some(x) ==> position_of(self@, id) matches Some(i) && x@ == self@[i],
            l is None ==> position_of(self@, id) is None,
    {
        proof {
            lemma_position_of_from(self@, id, 0);
        }
        match self.position(id) {
            Some(i) => Some(&self.layers[i]),
            None => None,
        }
    }

    /// Whether any layer is soloed.
    fn has_solo(&self) -> (r: bool)
        ensures
            r == any_solo(self@),
    {
        let mut i: usize = 0;
        while i < self.layers.len()
            invariant
                i <= self.layers@.len(),
                forall|j: int| 0 <= j < i ==> !self@[j].solo,
            decreases self.layers@.len() - i,
        {
            if self.layers[i].solo {
                proof {
                    assert(self@[i as int].solo);
                }
                return true;
            }
            i = i + 1;
        }
        false
    }

    /// The positions of the layers that participate in a fold, bottom→top:
    /// solo wins over mute (any solo present → only unmuted solos play), else
    /// every unmuted layer.
    pub fn effective(&self) -> (p: Vec<usize>)
        ensures
            p@.map_values(|i: usize| i as int) == effective_upto(self@, self@.len() as int),
    {
        let solo = self.has_solo();
        let mut p: Vec<usize> = Vec::new();
        let mut i: usize = 0;
        while i < self.layers.len()
            invariant
                i <= self.layers@.len(),
                solo == any_solo(self@),
                p@.map_values(|i: usize| i as int) == effective_upto(self@, i as int),
            decreases self.layers@.len() - i,
        {
            let l = &self.layers[i];
            if !l.muted && (!solo || l.solo) {
                p.push(i);
                proof {
                    assert(p@.map_values(|i: usize| i as int) =~= effective_upto(self@, i as int).push(
                        i as int,
                    ));
                }
            }
            i = i + 1;
        }
        p
    }

    /// The merged tile schedule, bottom→top: every effective tile layer's
    /// keyframes in stack order. Fed to the tile-script evaluation, whose
    /// later-keyframe-wins rule makes the top layer win overlapping cells.
    pub fn merged_tiles(&self) -> (m: Vec<TileKeyframe>)
        ensures
            m@ == merged_upto(self@, self@.len() as int),
    {
        let solo = self.has_solo();
        let mut m: Vec<TileKeyframe> = Vec::new();
        let mut i: usize = 0;
        while i < self.layers.len()
            invariant
                i <= self.layers@.len(),
                solo == any_solo(self@),
                m@ == merged_upto(self@, i as int),
            decreases self.layers@.len() - i,
        {
            let l = &self.layers[i];
            if !l.muted && (!solo || l.solo) {
                match &l.kind {
                    LayerKind::Tiles(k) => {
                        let ghost before = m@;
                        let mut j: usize = 0;
                        while j < k.len()
                            invariant
                                j <= k@.len(),
                                m@ == before + k@.subrange(0, j as int),
                            decreases k@.len() - j,
                        {
                            m.push(k[j]);
                            proof {
                                assert(k@.subrange(0, j + 1) =~= k@.subrange(0, j as int).push(
                                    k@[j as int],
                                ));
                            }
                            j = j + 1;
                        }
                        proof {
                            assert(k@.subrange(0, k@.len() as int) =~= k@);
                        }
                    },
                    _ => {},
                }
            }
            i = i + 1;
        }
        m
    }

    /// The positions [`LayerStack::recordings`] returns.
    pub open spec fn recordings_spec(&self) -> Seq<int> {
        keep_staffed(self@, effective_upto(self@, self@.len() as int))
    }

    /// The effective recording-bearing layers (boss and minions),
    /// bottom→top, by position.
    pub fn recordings(&self) -> (p: Vec<usize>)
        ensures
            forall|k: int|
                0 <= k < p@.len() ==> p@[k] < self@.len() && staff_of(
                    #[trigger] self@[p@[k] as int].kind,
                ) is Some,
            p@.map_values(|i: usize| i as int) == self.recordings_spec(),
    {
        let eff = self.effective();
        let mut p: Vec<usize> = Vec::new();
        let mut k: usize = 0;
        let ghost all = effective_upto(self@, self@.len() as int);
        proof {
            lemma_effective_upto_bounds(self@, self@.len() as int);
        }
        while k < eff.len()
            invariant
                k <= eff@.len(),
                eff@.map_values(|i: usize| i as int) == all,
                all == effective_upto(self@, self@.len() as int),
                forall|j: int| 0 <= j < all.len() ==> 0 <= #[trigger] all[j] < self@.len(),
                forall|j: int|
                    0 <= j < p@.len() ==> p@[j] < self@.len() && staff_of(
                        #[trigger] self@[p@[j] as int].kind,
                    ) is Some,
                p@.map_values(|i: usize| i as int) == keep_staffed(self@, all.subrange(0, k as int)),
            decreases eff@.len() - k,
        {
            let i = eff[k];
            proof {
                assert(all[k as int] == i as int);
                assert(all.subrange(0, k + 1).drop_last() =~= all.subrange(0, k as int));
                assert(all.subrange(0, k + 1).last() == i as int);
                assert(self@.len() == self.layers@.len());
            }
            let bearing = match &self.layers[i].kind {
                LayerKind::Tiles(_) => false,
                _ => true,
            };
            if bearing {
                p.push(i);
                proof {
                    assert(p@.map_values(|i: usize| i as int) =~= keep_staffed(
                        self@,
                        all.subrange(0, k as int),
                    ).push(i as int));
                }
            }
            k = k + 1;
        }
        proof {
            assert(all.subrange(0, all.len() as int) =~= all);
        }
        p
    }
}

pub proof fn lemma_position_of_from(s: Seq<LayerModel>, id: LayerId, from: int)
    requires
        0 <= from,
    ensures
        position_of_from(s, id, from) matches Some(i) ==> from <= i < s.len() && s[i].id == id,
    decreases s.len() - from,
{
    if from < s.len() && s[from].id != id {
        lemma_position_of_from(s, id, from + 1);
    }
}

pub proof fn lemma_effective_upto_bounds(s: Seq<LayerModel>, n: int)
    requires
        n <= s.len(),
    ensures
        forall|j: int|
            0 <= j < effective_upto(s, n).len() ==> 0 <= #[trigger] effective_upto(s, n)[j] < n,
        forall|j: int|
            0 <= j < effective_upto(s, n).len() ==> is_effective(s, #[trigger] effective_upto(s, n)[j]),
    decreases n,
{
    if n > 0 {
        lemma_effective_upto_bounds(s, n - 1);
        let prev = effective_upto(s, n - 1);
        assert forall|j: int| 0 <= j < effective_upto(s, n).len() implies 0
            <= #[trigger] effective_upto(s, n)[j] < n && is_effective(s, effective_upto(s, n)[j]) by {
            if j < prev.len() {
                assert(effective_upto(s, n)[j] == prev[j]);
            }
        }
    }
}

/// Mute and solo decide what plays: with no layer soloed every unmuted layer
/// is effective; once any layer is soloed exactly the unmuted soloed layers
/// are; a muted layer never is.
pub proof fn law_mute_and_solo(s: Seq<LayerModel>, i: int)
    requires
        0 <= i < s.len(),
    ensures
        s[i].muted ==> !is_effective(s, i),
        !any_solo(s) ==> (is_effective(s, i) <==> !s[i].muted),
        s[i].solo && !s[i].muted ==> is_effective(s, i),
        any_solo(s) && !s[i].solo ==> !is_effective(s, i),
{
}

/// The merged tile schedule puts higher layers' keyframes after lower ones:
/// the last effective tile layer's keyframes end the schedule, so its cells
/// win every overlap (with the tile scripts' later-keyframe-wins rule).
pub proof fn law_top_layer_comes_last(s: Seq<LayerModel>, k: Seq<TileKeyframe>)
    requires
        s.len() > 0,
        is_effective(s, s.len() - 1),
        s.last().kind == KindModel::Tiles(k),
    ensures
        merged_upto(s, s.len() as int) == merged_upto(s, s.len() - 1) + k,
{
}

/// The top layer wins: when the topmost layer is an effective tile layer,
/// every cell its own keyframes ask for at `tick` wears exactly the kind that
/// layer gives it in the merged schedule, whatever the layers beneath say.
/// (`below` are the wave centres of the lower layers' keyframes, `top` those
/// of the top layer's.)
pub proof fn law_top_layer_wins(
    s: Seq<LayerModel>,
    k: Seq<TileKeyframe>,
    tick: u32,
    below: Seq<Seq<i32>>,
    top: Seq<Seq<i32>>,
    c: (u8, u8),
)
    requires
        s.len() > 0,
        is_effective(s, s.len() - 1),
        s.last().kind == KindModel::Tiles(k),
        below.len() == merged_upto(s, s.len() - 1).len(),
        desired_spec(k, tick, top).dom().contains(c),
    ensures
        desired_spec(merged_upto(s, s.len() as int), tick, below + top).dom().contains(c),
        desired_spec(merged_upto(s, s.len() as int), tick, below + top)[c] == desired_spec(
            k,
            tick,
            top,
        )[c],
{
    law_top_layer_comes_last(s, k);
    law_later_script_wins(merged_upto(s, s.len() - 1), k, tick, below, top, c);
}

// --- The arena's draft and its published baseline --------------------------------

/// An arena root's live stack: `stack` is what the world folds and the author
/// edits (the draft); `published` is the baseline it diffs against;
/// `version` is the file version the baseline came from.
pub struct ArenaStack {
    pub stack: LayerStack,
    pub published: LayerStack,
    pub version: Option<u32>,
}

/// Layer `id` differs between draft and baseline (persisted fields only), or
/// exists in only one of them.
pub open spec fn layer_dirty_spec(draft: Seq<LayerModel>, baseline: Seq<LayerModel>, id: LayerId) -> bool {
    match (position_of(draft, id), position_of(baseline, id)) {
        (Some(a), Some(b)) => !persisted_eq(draft[a], baseline[b]),
        (None, None) => false,
        _ => true,
    }
}

impl ArenaStack {
    /// A stack with nothing in it, never published.
    pub fn new() -> (a: ArenaStack)
        ensures
            a.stack@ == Seq::<LayerModel>::empty(),
            a.published@ == Seq::<LayerModel>::empty(),
            a.version is None,
    {
        ArenaStack { stack: LayerStack::new(), published: LayerStack::new(), version: None }
    }

    /// A freshly loaded stack: draft == published baseline.
    pub fn loaded(stack: LayerStack, version: u32) -> (a: ArenaStack)
        ensures
            a.stack@ == stack@,
            a.published@ == stack@,
            a.version == Some(version),
    {
        let published = stack.copy();
        ArenaStack { stack, published, version: Some(version) }
    }

    /// `true` while `id` differs from its published baseline (persisted fields
    /// only — `solo`/`locked` are session UI state).
    pub fn layer_dirty(&self, id: LayerId) -> (r: bool)
        ensures
            r == layer_dirty_spec(self.stack@, self.published@, id),
    {
        proof {
            lemma_position_of_from(self.stack@, id, 0);
            lemma_position_of_from(self.published@, id, 0);
        }
        match (self.stack.position(id), self.published.position(id)) {
            (Some(a), Some(b)) => !same_persisted(&self.stack.layers[a], &self.published.layers[b]),
            (None, None) => false,
            _ => true,
        }
    }

    /// `true` while any layer differs from the published baseline — unsaved
    /// author work that must never be destroyed.
    pub fn dirty(&self) -> (r: bool)
        ensures
            r == exists|id: LayerId| layer_dirty_spec(self.stack@, self.published@, id),
    {
        let mut i: usize = 0;
        while i < self.stack.layers.len()
            invariant
                i <= self.stack.layers@.len(),
                forall|j: int|
                    0 <= j < i ==> !layer_dirty_spec(
                        self.stack@,
                        self.published@,
                        #[trigger] self.stack@[j].id,
                    ),
            decreases self.stack.layers@.len() - i,
        {
            if self.layer_dirty(self.stack.layers[i].id) {
                return true;
            }
            i = i + 1;
        }
        let mut k: usize = 0;
        while k < self.published.layers.len()
            invariant
                k <= self.published.layers@.len(),
                forall|j: int|
                    0 <= j < self.stack@.len() ==> !layer_dirty_spec(
                        self.stack@,
                        self.published@,
                        #[trigger] self.stack@[j].id,
                    ),
                forall|j: int|
                    0 <= j < k ==> !layer_dirty_spec(
                        self.stack@,
                        self.published@,
                        #[trigger] self.published@[j].id,
                    ),
            decreases self.published.layers@.len() - k,
        {
            if self.layer_dirty(self.published.layers[k].id) {
                return true;
            }
            k = k + 1;
        }
        proof {
            assert forall|id: LayerId| !layer_dirty_spec(self.stack@, self.published@, id) by {
                lemma_position_of_from(self.stack@, id, 0);
                lemma_position_of_from(self.published@, id, 0);
                if let Some(a) = position_of(self.stack@, id) {
                    assert(self.stack@[a].id == id);
                } else if let Some(b) = position_of(self.published@, id) {
                    assert(self.published@[b].id == id);
                }
            }
        }
        false
    }

    /// Publishes the draft: baseline = draft, version = the new file version.
    pub fn mark_published(&mut self, version: u32)
        ensures
            final(self).stack@ == old(self).stack@,
            final(self).published@ == old(self).stack@,
            final(self).version == Some(version),
    {
        self.published = self.stack.copy();
        self.version = Some(version);
    }
}

/// A freshly loaded or just-published stack has no unsaved work.
pub proof fn law_published_stack_is_clean(s: Seq<LayerModel>, id: LayerId)
    ensures
        !layer_dirty_spec(s, s, id),
{
    lemma_position_of_from(s, id, 0);
}

// --- Folding a stack into the master timeline ------------------------------------

/// The entity bound to layer `id` by the first binding naming it.
pub open spec fn binding_of(bindings: Seq<(LayerId, u64)>, id: LayerId) -> Option<u64>
    decreases bindings.len(),
{
    if bindings.len() == 0 {
        None
    } else if bindings[0].0 == id {
        Some(bindings[0].1)
    } else {
        binding_of(bindings.drop_first(), id)
    }
}

/// The master timeline that folding the staffs of `layers` (positions into
/// `s`, in order) into `before` produces, each for the entity bound to its
/// layer; unbound layers are skipped.
pub open spec fn stack_fold(
    s: Seq<LayerModel>,
    layers: Seq<int>,
    bindings: Seq<(LayerId, u64)>,
    before: Seq<GhostEvent>,
) -> Seq<GhostEvent>
    decreases layers.len(),
{
    if layers.len() == 0 {
        before
    } else {
        let mid = stack_fold(s, layers.drop_last(), bindings, before);
        let l = s[layers.last()];
        match binding_of(bindings, l.id) {
            Some(e) => fold_result(mid, e, staff_of(l.kind)->0.events),
            None => mid,
        }
    }
}

/// Some layer among `layers` is bound to an entity.
pub open spec fn any_bound(s: Seq<LayerModel>, layers: Seq<int>, bindings: Seq<(LayerId, u64)>) -> bool {
    exists|j: int| 0 <= j < layers.len() && binding_of(bindings, s[#[trigger] layers[j]].id) is Some
}

/// The entity bound to `id`, by the first binding naming it.
fn find_binding(bindings: &[(LayerId, u64)], id: LayerId) -> (e: Option<u64>)
    ensures
        e == binding_of(bindings@, id),
{
    let mut i: usize = 0;
    proof {
        assert(bindings@.subrange(0, bindings@.len() as int) =~= bindings@);
    }
    while i < bindings.len()
        invariant
            i <= bindings@.len(),
            binding_of(bindings@, id) == binding_of(bindings@.subrange(i as int, bindings@.len() as int), id),
        decreases bindings@.len() - i,
    {
        let (lid, e) = bindings[i];
        proof {
            let rest = bindings@.subrange(i as int, bindings@.len() as int);
            assert(rest[0] == bindings@[i as int]);
            assert(rest.drop_first() =~= bindings@.subrange(i + 1, bindings@.len() as int));
        }
        if lid == id {
            return Some(e);
        }
        i = i + 1;
    }
    proof {
        assert(bindings@.subrange(i as int, bindings@.len() as int) =~= Seq::<(LayerId, u64)>::empty());
    }
    None
}

/// Folds every effective recording layer of `stack` into `timeline` using the
/// caller's `(layer → entity)` bindings. Layers without a binding are
/// skipped — the caller decides what entity a layer drives. Deterministic:
/// the same stack and bindings give the same master timeline.
pub fn fold_stack(stack: &LayerStack, bindings: &[(LayerId, u64)], timeline: &mut ArenaTimeline)
    ensures
        final(timeline).events@ == stack_fold(
            stack@,
            stack.recordings_spec(),
            bindings@,
            old(timeline).events@,
        ),
        any_bound(stack@, stack.recordings_spec(), bindings@) ==> final(timeline).cursor == 0,
        !any_bound(stack@, stack.recordings_spec(), bindings@) ==> final(timeline).cursor == old(
            timeline,
        ).cursor,
{
    let recs = stack.recordings();
    proof {
        assert forall|j: int| 0 <= j < recs@.len() implies #[trigger] recs@[j] < stack@.len()
            && staff_of(stack@[recs@[j] as int].kind) is Some by {
            assert(staff_of(stack@[recs@[j] as int].kind) is Some);
        }
    }
    let ghost order = recs@.map_values(|i: usize| i as int);
    let ghost start = timeline.events@;
    let mut k: usize = 0;
    while k < recs.len()
        invariant
            k <= recs@.len(),
            order == recs@.map_values(|i: usize| i as int),
            order == stack.recordings_spec(),
            forall|j: int|
                0 <= j < recs@.len() ==> #[trigger] recs@[j] < stack@.len() && staff_of(
                    stack@[recs@[j] as int].kind,
                ) is Some,
            timeline.events@ == stack_fold(stack@, order.subrange(0, k as int), bindings@, start),
            any_bound(stack@, order.subrange(0, k as int), bindings@) ==> timeline.cursor == 0,
            !any_bound(stack@, order.subrange(0, k as int), bindings@) ==> timeline.cursor == old(
                timeline,
            ).cursor,
        decreases recs@.len() - k,
    {
        let i = recs[k];
        proof {
            assert(stack@.len() == stack.layers@.len());
            assert(i < stack@.len());
        }
        let layer = &stack.layers[i];
        let ghost prev = order.subrange(0, k as int);
        let ghost cur = order.subrange(0, k + 1);
        proof {
            assert(cur.drop_last() =~= prev);
            assert(cur.last() == i as int);
            assert(stack@[i as int] == layer@);
        }
        let bound = find_binding(bindings, layer.id);
        match bound {
            Some(entity) => {
                match &layer.kind {
                    LayerKind::Boss(r) => fold(timeline, entity, r),
                    LayerKind::Minion(m) => fold(timeline, entity, &m.recording),
                    LayerKind::Tiles(_) => {},
                }
            },
            None => {},
        }
        proof {
            assert(timeline.events@ == stack_fold(stack@, cur, bindings@, start));
            if any_bound(stack@, cur, bindings@) && bound is None {
                let j = choose|j: int|
                    0 <= j < cur.len() && binding_of(bindings@, stack@[#[trigger] cur[j]].id) is Some;
                assert(j < prev.len());
                assert(prev[j] == cur[j]);
            }
            if any_bound(stack@, prev, bindings@) {
                let j = choose|j: int|
                    0 <= j < prev.len() && binding_of(bindings@, stack@[#[trigger] prev[j]].id) is Some;
                assert(cur[j] == prev[j]);
            }
            if bound is Some {
                assert(cur[k as int] == i as int);
                assert(any_bound(stack@, cur, bindings@));
            }
        }
        k = k + 1;
    }
    proof {
        assert(order.subrange(0, order.len() as int) =~= order);
    }
}

// --- File shapes -------------------------------------------------------------------

/// A serialized action. `Ability` carries the optional cast direction.
#[derive(Clone, Copy, PartialEq, Eq, Debug)]
pub enum ActionDto {
    Move(i32, i32),
    Ability { slot: u8, aim: Option<(i32, i32)> },
}

pub open spec fn action_dto_of(a: Action) -> ActionDto {
    match a {
        Action::Move(d) => ActionDto::Move(d.x, d.y),
        Action::Ability { slot, aim } => ActionDto::Ability {
            slot,
            aim: match aim {
                Some(v) => Some((v.x, v.y)),
                None => None,
            },
        },
    }
}

pub open spec fn action_of_dto(d: ActionDto) -> Action {
    match d {
        ActionDto::Move(x, y) => Action::Move(IVec2 { x, y }),
        ActionDto::Ability { slot, aim } => Action::Ability {
            slot,
            aim: match aim {
                Some(v) => Some(IVec2 { x: v.0, y: v.1 }),
                None => None,
            },
        },
    }
}

impl vstd::std_specs::convert::FromSpecImpl<Action> for ActionDto {
    open spec fn obeys_from_spec() -> bool {
        true
    }

    open spec fn from_spec(v: Action) -> ActionDto {
        action_dto_of(v)
    }
}

impl From<Action> for ActionDto {
    fn from(action: Action) -> (r: ActionDto) {
        match action {
            Action::Move(delta) => ActionDto::Move(delta.x, delta.y),
            Action::Ability { slot, aim } => ActionDto::Ability {
                slot,
                aim: match aim {
                    Some(v) => Some((v.x, v.y)),
                    None => None,
                },
            },
        }
    }
}

impl vstd::std_specs::convert::FromSpecImpl<ActionDto> for Action {
    open spec fn obeys_from_spec() -> bool {
        true
    }

    open spec fn from_spec(v: ActionDto) -> Action {
        action_of_dto(v)
    }
}

impl From<ActionDto> for Action {
    fn from(dto: ActionDto) -> (r: Action) {
        match dto {
            ActionDto::Move(x, y) => Action::Move(IVec2::new(x, y)),
            ActionDto::Ability { slot, aim } => Action::Ability {
                slot,
                aim: match aim {
                    Some(v) => Some(IVec2::new(v.0, v.1)),
                    None => None,
                },
            },
        }
    }
}

/// Turning an action into its file shape and back gives the same action,
/// cast direction included.
pub proof fn law_action_round_trip(a: Action)
    ensures
        action_of_dto(action_dto_of(a)) == a,
{
}

/// A serialized [`Recording`].
#[derive(Debug)]
pub struct RecordingDto {
    pub start: (i32, i32),
    pub events: Vec<(u32, ActionDto)>,
}

pub open spec fn dto_rows(events: Seq<TimelineEvent>) -> Seq<(u32, ActionDto)> {
    events.map_values(|e: TimelineEvent| (e.tick, action_dto_of(e.action)))
}

pub open spec fn events_of_dto_rows(rows: Seq<(u32, ActionDto)>) -> Seq<TimelineEvent> {
    rows.map_values(|r: (u32, ActionDto)| TimelineEvent { tick: r.0, action: action_of_dto(r.1) })
}

impl RecordingDto {
    pub fn from_recording(recording: &Recording) -> (d: RecordingDto)
        ensures
            d.start == (recording.start.x, recording.start.y),
            d.events@ == dto_rows(recording.events@),
    {
        let mut rows: Vec<(u32, ActionDto)> = Vec::new();
        let mut i: usize = 0;
        while i < recording.events.len()
            invariant
                i <= recording.events@.len(),
                rows@ == dto_rows(recording.events@.subrange(0, i as int)),
            decreases recording.events@.len() - i,
        {
            let e = recording.events[i];
            rows.push((e.tick, ActionDto::from(e.action)));
            proof {
                assert(dto_rows(recording.events@.subrange(0, i + 1)) =~= dto_rows(
                    recording.events@.subrange(0, i as int),
                ).push((e.tick, action_dto_of(e.action))));
            }
            i = i + 1;
        }
        proof {
            assert(recording.events@.subrange(0, recording.events@.len() as int)
                =~= recording.events@);
        }
        RecordingDto { start: (recording.start.x, recording.start.y), events: rows }
    }

    pub fn recording(&self) -> (r: Recording)
        ensures
            r.start == (IVec2 { x: self.start.0, y: self.start.1 }),
            r.events@ == events_of_dto_rows(self.events@),
    {
        let mut events: Vec<TimelineEvent> = Vec::new();
        let mut i: usize = 0;
        while i < self.events.len()
            invariant
                i <= self.events@.len(),
                events@ == events_of_dto_rows(self.events@.subrange(0, i as int)),
            decreases self.events@.len() - i,
        {
            let (tick, dto) = self.events[i];
            events.push(TimelineEvent { tick, action: Action::from(dto) });
            proof {
                assert(events_of_dto_rows(self.events@.subrange(0, i + 1)) =~= events_of_dto_rows(
                    self.events@.subrange(0, i as int),
                ).push(TimelineEvent { tick, action: action_of_dto(dto) }));
            }
            i = i + 1;
        }
        proof {
            assert(self.events@.subrange(0, self.events@.len() as int) =~= self.events@);
        }
        Recording { start: IVec2::new(self.start.0, self.start.1), events }
    }
}

/// Writing a recording's events as file rows and reading them back gives the
/// same events, cast directions included.
pub proof fn law_recording_rows_round_trip(events: Seq<TimelineEvent>)
    ensures
        events_of_dto_rows(dto_rows(events)) == events,
{
    assert(events_of_dto_rows(dto_rows(events)) =~= events);
}

/// A serialized layer kind.
#[derive(Debug)]
pub enum LayerKindDto {
    Boss(RecordingDto),
    Minion {
        archetype: MinionArchetype,
        spawn_tick: u32,
        despawn_tick: u32,
        spawn_tile: (i32, i32),
        recording: RecordingDto,
    },
    Tiles(Vec<TileKeyframe>),
}

/// A serialized layer (session-only `solo`/`locked` are not part of it).
#[derive(Debug)]
pub struct LayerDto {
    pub id: u32,
    pub name: String,
    pub muted: bool,
    pub effects: Vec<EffectTrack>,
    pub kind: LayerKindDto,
}

/// One whole stack on disk — the atomic publish unit.
#[derive(Debug)]
pub struct LayerScoreFile {
    pub format: u32,
    pub arena: u8,
    pub difficulty: Difficulty,
    pub layers: Vec<LayerDto>,
}

/// The layer content a file layer kind stands for.
pub open spec fn kind_of_dto(k: LayerKindDto) -> KindModel {
    match k {
        LayerKindDto::Boss(r) => KindModel::Boss(
            RecordingModel {
                start: IVec2 { x: r.start.0, y: r.start.1 },
                events: events_of_dto_rows(r.events@),
            },
        ),
        LayerKindDto::Minion { archetype, spawn_tick, despawn_tick, spawn_tile, recording } =>
            KindModel::Minion {
            archetype,
            spawn_tick,
            despawn_tick,
            spawn_tile: IVec2 { x: spawn_tile.0, y: spawn_tile.1 },
            recording: RecordingModel {
                start: IVec2 { x: recording.start.0, y: recording.start.1 },
                events: events_of_dto_rows(recording.events@),
            },
        },
        LayerKindDto::Tiles(k) => KindModel::Tiles(k@),
    }
}

/// The layer a file layer stands for: its persisted fields, with the session
/// flags cleared.
pub open spec fn layer_of_dto_model(d: LayerDto) -> LayerModel {
    LayerModel {
        id: LayerId(d.id),
        name: d.name@,
        kind: kind_of_dto(d.kind),
        muted: d.muted,
        solo: false,
        locked: false,
        effects: tracks_view(d.effects@),
    }
}

/// A layer with its session-only flags cleared — what survives a save.
pub open spec fn saved(l: LayerModel) -> LayerModel {
    LayerModel { solo: false, locked: false, ..l }
}

impl LayerKind {
    fn to_dto(&self) -> (d: LayerKindDto)
        ensures
            kind_of_dto(d) == self@,
    {
        match self {
            LayerKind::Boss(r) => {
                let d = RecordingDto::from_recording(r);
                proof {
                    law_recording_rows_round_trip(r.events@);
                }
                LayerKindDto::Boss(d)
            },
            LayerKind::Minion(m) => {
                let d = RecordingDto::from_recording(&m.recording);
                proof {
                    law_recording_rows_round_trip(m.recording.events@);
                }
                LayerKindDto::Minion {
                    archetype: m.archetype,
                    spawn_tick: m.spawn_tick,
                    despawn_tick: m.despawn_tick,
                    spawn_tile: (m.spawn_tile.x, m.spawn_tile.y),
                    recording: d,
                }
            },
            LayerKind::Tiles(k) => LayerKindDto::Tiles(copy_vec(k)),
        }
    }
}

impl LayerScoreFile {
    /// The file for `stack`, owned by `(arena, difficulty)`.
    pub fn from_stack(arena: Arena, difficulty: Difficulty, stack: &LayerStack) -> (f: LayerScoreFile)
        ensures
            f.format == LAYERS_FORMAT,
            f.arena == arena_index(arena),
            f.difficulty == difficulty,
            f.layers@.len() == stack@.len(),
            forall|i: int|
                0 <= i < stack@.len() ==> layer_of_dto_model(#[trigger] f.layers@[i]) == saved(
                    stack@[i],
                ),
    {
        let mut layers: Vec<LayerDto> = Vec::new();
        let mut i: usize = 0;
        while i < stack.layers.len()
            invariant
                i <= stack.layers@.len(),
                layers@.len() == i,
                forall|j: int|
                    0 <= j < i ==> layer_of_dto_model(#[trigger] layers@[j]) == saved(stack@[j]),
            decreases stack.layers@.len() - i,
        {
            let l = &stack.layers[i];
            let kind = l.kind.to_dto();
            let dto = LayerDto {
                id: l.id.0,
                name: l.name.clone(),
                muted: l.muted,
                effects: copy_tracks(&l.effects),
                kind,
            };
            proof {
                assert(stack@[i as int] == l@);
                assert(layer_of_dto_model(dto) =~= saved(l@));
            }
            layers.push(dto);
            i = i + 1;
        }
        LayerScoreFile { format: LAYERS_FORMAT, arena: arena.index() as u8, difficulty, layers }
    }

    /// The stack this file carries; the session flags start cleared.
    pub fn stack(&self) -> (s: LayerStack)
        ensures
            s@.len() == self.layers@.len(),
            forall|i: int| 0 <= i < s@.len() ==> #[trigger] s@[i] == layer_of_dto_model(self.layers@[i]),
    {
        let mut layers: Vec<Layer> = Vec::new();
        let mut i: usize = 0;
        while i < self.layers.len()
            invariant
                i <= self.layers@.len(),
                layers@.len() == i,
                forall|j: int|
                    0 <= j < i ==> #[trigger] layers@[j]@ == layer_of_dto_model(self.layers@[j]),
            decreases self.layers@.len() - i,
        {
            let d = &self.layers[i];
            let kind = match &d.kind {
                LayerKindDto::Boss(r) => LayerKind::Boss(r.recording()),
                LayerKindDto::Minion { archetype, spawn_tick, despawn_tick, spawn_tile, recording } =>
                    LayerKind::Minion(
                    MinionLayer {
                        archetype: *archetype,
                        spawn_tick: *spawn_tick,
                        despawn_tick: *despawn_tick,
                        spawn_tile: IVec2::new(spawn_tile.0, spawn_tile.1),
                        recording: recording.recording(),
                    },
                ),
                LayerKindDto::Tiles(k) => LayerKind::Tiles(copy_vec(k)),
            };
            let layer = Layer {
                id: LayerId(d.id),
                name: d.name.clone(),
                kind,
                muted: d.muted,
                solo: false,
                locked: false,
                effects: copy_tracks(&d.effects),
            };
            proof {
                assert(layer@.kind =~= kind_of_dto(d.kind));
                assert(layer@ =~= layer_of_dto_model(*d));
            }
            layers.push(layer);
            i = i + 1;
        }
        LayerStack { layers }
    }

    /// Rejects a header the reader can't trust — the same contract as the
    /// legacy score files, in the layered format.
    pub fn validate(&self, arena: Arena, difficulty: Difficulty) -> (r: Result<(), ScoreHeaderError>)
        ensures
            r == validate_header_spec(
                self.format,
                LAYERS_FORMAT,
                self.arena,
                self.difficulty,
                arena,
                difficulty,
            ),
    {
        validate_header(self.format, LAYERS_FORMAT, self.arena, self.difficulty, arena, difficulty)
    }
}

/// Saving a stack to its file and loading it back gives the same layers, in
/// the same order, with only the session-only solo/lock flags cleared.
pub proof fn law_stack_file_round_trip(s: Seq<LayerModel>, f: Seq<LayerDto>, back: Seq<LayerModel>)
    requires
        f.len() == s.len(),
        forall|i: int| 0 <= i < s.len() ==> layer_of_dto_model(#[trigger] f[i]) == saved(s[i]),
        back.len() == f.len(),
        forall|i: int| 0 <= i < back.len() ==> #[trigger] back[i] == layer_of_dto_model(f[i]),
    ensures
        back == s.map_values(|l: LayerModel| saved(l)),
{
    assert(back =~= s.map_values(|l: LayerModel| saved(l)));
}

/// A layer differing from its published baseline in any persisted field is
/// unsaved work: with the layer present in both, a change of its name, its
/// mute, its kind or any of its effect tracks (a key moved, added, removed
/// or re-eased) makes it dirty, and so the whole stack; a change of only
/// `solo`/`locked` does not.
pub proof fn law_persisted_changes_are_dirty(s: Seq<LayerModel>, p: Seq<LayerModel>, id: LayerId, a: int, b: int)
    requires
        position_of(s, id) == Some(a),
        position_of(p, id) == Some(b),
    ensures
        s[a].name != p[b].name ==> layer_dirty_spec(s, p, id),
        s[a].muted != p[b].muted ==> layer_dirty_spec(s, p, id),
        s[a].kind != p[b].kind ==> layer_dirty_spec(s, p, id),
        s[a].effects != p[b].effects ==> layer_dirty_spec(s, p, id),
        s[a].effects != p[b].effects ==> exists|x: LayerId| layer_dirty_spec(s, p, x),
        (s[a].name == p[b].name && s[a].muted == p[b].muted && s[a].kind == p[b].kind && s[a].effects
            == p[b].effects) ==> !layer_dirty_spec(s, p, id),
{
    if s[a].effects != p[b].effects {
        assert(layer_dirty_spec(s, p, id));
    }
}

} // verus!
