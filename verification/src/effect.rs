//! Effect tracks — non-destructive, keyframed layer effects (Scale, Opacity).
//!
//! A track is tick-keyed [`EffectKey`]s eased with an [`EaseKind`]. Sampling
//! a track at a tick picks the segment the tick falls in ([`EffectTrack::segment`]):
//! clamped to the first/last key outside the keyed range, or the pair of
//! adjacent keys around it. Key values are real numbers, carried here as the
//! bit patterns of their `f32` values; the renderer eases between the two
//! values of a segment.

use vstd::prelude::*;

verus! {

/// The file-stable easing vocabulary (append variants, never reorder).
#[derive(Clone, Copy, PartialEq, Eq, Debug, Structural)]
pub enum EaseKind {
    Linear,
    SineIn,
    SineOut,
    SineInOut,
    QuadIn,
    QuadOut,
    QuadInOut,
    CubicIn,
    CubicOut,
    CubicInOut,
    ExpoIn,
    ExpoOut,
    ExpoInOut,
    BackIn,
    BackOut,
    BackInOut,
    ElasticIn,
    ElasticOut,
    ElasticInOut,
    BounceIn,
    BounceOut,
    BounceInOut,
    SmoothStep,
    /// The value holds until the next key (a step at the segment's end).
    Hold,
}

impl Default for EaseKind {
    fn default() -> (e: EaseKind)
        ensures
            e == EaseKind::Linear,
    {
        EaseKind::Linear
    }
}

/// The name an ease is shown by: its variant name.
pub open spec fn ease_name(e: EaseKind) -> Seq<char> {
    match e {
        EaseKind::Linear => "Linear"@,
        EaseKind::SineIn => "SineIn"@,
        EaseKind::SineOut => "SineOut"@,
        EaseKind::SineInOut => "SineInOut"@,
        EaseKind::QuadIn => "QuadIn"@,
        EaseKind::QuadOut => "QuadOut"@,
        EaseKind::QuadInOut => "QuadInOut"@,
        EaseKind::CubicIn => "CubicIn"@,
        EaseKind::CubicOut => "CubicOut"@,
        EaseKind::CubicInOut => "CubicInOut"@,
        EaseKind::ExpoIn => "ExpoIn"@,
        EaseKind::ExpoOut => "ExpoOut"@,
        EaseKind::ExpoInOut => "ExpoInOut"@,
        EaseKind::BackIn => "BackIn"@,
        EaseKind::BackOut => "BackOut"@,
        EaseKind::BackInOut => "BackInOut"@,
        EaseKind::ElasticIn => "ElasticIn"@,
        EaseKind::ElasticOut => "ElasticOut"@,
        EaseKind::ElasticInOut => "ElasticInOut"@,
        EaseKind::BounceIn => "BounceIn"@,
        EaseKind::BounceOut => "BounceOut"@,
        EaseKind::BounceInOut => "BounceInOut"@,
        EaseKind::SmoothStep => "SmoothStep"@,
        EaseKind::Hold => "Hold"@,
    }
}

impl EaseKind {
    /// The name the interpolation panel shows for this ease.
    pub fn name(self) -> (r: &'static str)
        ensures
            r@ == ease_name(self),
    {
        match self {
            EaseKind::Linear => "Linear",
            EaseKind::SineIn => "SineIn",
            EaseKind::SineOut => "SineOut",
            EaseKind::SineInOut => "SineInOut",
            EaseKind::QuadIn => "QuadIn",
            EaseKind::QuadOut => "QuadOut",
            EaseKind::QuadInOut => "QuadInOut",
            EaseKind::CubicIn => "CubicIn",
            EaseKind::CubicOut => "CubicOut",
            EaseKind::CubicInOut => "CubicInOut",
            EaseKind::ExpoIn => "ExpoIn",
            EaseKind::ExpoOut => "ExpoOut",
            EaseKind::ExpoInOut => "ExpoInOut",
            EaseKind::BackIn => "BackIn",
            EaseKind::BackOut => "BackOut",
            EaseKind::BackInOut => "BackInOut",
            EaseKind::ElasticIn => "ElasticIn",
            EaseKind::ElasticOut => "ElasticOut",
            EaseKind::ElasticInOut => "ElasticInOut",
            EaseKind::BounceIn => "BounceIn",
            EaseKind::BounceOut => "BounceOut",
            EaseKind::BounceInOut => "BounceInOut",
            EaseKind::SmoothStep => "SmoothStep",
            EaseKind::Hold => "Hold",
        }
    }
}

/// What an [`EffectTrack`] drives on the layer's bound entity.
#[derive(Clone, Copy, PartialEq, Eq, Debug, Structural)]
pub enum EffectKind {
    /// Uniform scale (1.0 = authored size).
    Scale,
    /// Material alpha on the bound subtree (1.0 = authored look).
    Opacity,
}

/// One keyframe: at `tick` the track is exactly the value whose `f32` bits
/// are `value_bits`; `ease` shapes the segment from this key to the next.
#[derive(Clone, Copy, PartialEq, Eq, Debug, Structural)]
pub struct EffectKey {
    pub tick: u32,
    pub value_bits: u32,
    pub ease: EaseKind,
}

/// A keyframed effect on one layer. Keys stay tick-sorted (the editor keeps
/// them so).
#[derive(Debug)]
pub struct EffectTrack {
    pub kind: EffectKind,
    pub keys: Vec<EffectKey>,
}

/// The mathematical content of a track.
pub struct TrackModel {
    pub kind: EffectKind,
    pub keys: Seq<EffectKey>,
}

impl View for EffectTrack {
    type V = TrackModel;

    open spec fn view(&self) -> TrackModel {
        TrackModel { kind: self.kind, keys: self.keys@ }
    }
}

/// Where a tick falls on a track.
#[derive(Clone, Copy, PartialEq, Eq, Debug, Structural)]
pub enum Segment {
    /// Outside the keyed range (or exactly on an end key): the value is this
    /// key's.
    Hold(EffectKey),
    /// Strictly between two adjacent keys: `elapsed` of `span` ticks from
    /// `from` towards `to`, eased by `from.ease`.
    Ease { from: EffectKey, to: EffectKey, elapsed: u32, span: u32 },
}

/// The index of the first key of `keys`, at or after `from`, stamped past
/// `t` (or `keys.len()`).
pub open spec fn first_key_after(keys: Seq<EffectKey>, t: u32, from: int) -> int
    decreases keys.len() - from,
{
    if from >= keys.len() || from < 0 {
        keys.len() as int
    } else if keys[from].tick > t {
        from
    } else {
        first_key_after(keys, t, from + 1)
    }
}

/// The segment a track holds at `tick`; `None` only when it has no keys.
pub open spec fn segment_spec(keys: Seq<EffectKey>, tick: u32) -> Option<Segment> {
    if keys.len() == 0 {
        None
    } else if tick <= keys[0].tick {
        Some(Segment::Hold(keys[0]))
    } else if tick >= keys.last().tick {
        Some(Segment::Hold(keys.last()))
    } else {
        let after = first_key_after(keys, tick, 0);
        let a = keys[after - 1];
        let b = keys[after];
        Some(
            Segment::Ease {
                from: a,
                to: b,
                elapsed: (tick - a.tick) as u32,
                span: (b.tick - a.tick) as u32,
            },
        )
    }
}

pub proof fn lemma_first_key_after(keys: Seq<EffectKey>, t: u32, from: int)
    requires
        0 <= from <= keys.len(),
    ensures
        from <= first_key_after(keys, t, from) <= keys.len(),
        forall|i: int| from <= i < first_key_after(keys, t, from) ==> keys[i].tick <= t,
        first_key_after(keys, t, from) < keys.len() ==> keys[first_key_after(keys, t, from)].tick
            > t,
    decreases keys.len() - from,
{
    if from < keys.len() && keys[from].tick <= t {
        lemma_first_key_after(keys, t, from + 1);
    }
}

impl EffectTrack {
    /// The segment of the track at `tick`: clamped to the first/last key
    /// outside the keyed range, the two adjacent keys around it inside.
    /// `None` only when the track has no keys at all.
    pub fn segment(&self, tick: u32) -> (s: Option<Segment>)
        ensures
            s == segment_spec(self.keys@, tick),
            s matches Some(Segment::Ease { from, to, elapsed, span }) ==> from.tick <= tick
                < to.tick && elapsed < span,
    {
        let n = self.keys.len();
        if n == 0 {
            return None;
        }
        let first = self.keys[0];
        if tick <= first.tick {
            return Some(Segment::Hold(first));
        }
        let last = self.keys[n - 1];
        if tick >= last.tick {
            return Some(Segment::Hold(last));
        }
        let mut after: usize = 0;
        while after < n && self.keys[after].tick <= tick
            invariant
                n == self.keys@.len(),
                after <= n,
                first_key_after(self.keys@, tick, 0) == first_key_after(
                    self.keys@,
                    tick,
                    after as int,
                ),
                forall|i: int| 0 <= i < after ==> self.keys@[i].tick <= tick,
            decreases n - after,
        {
            after = after + 1;
        }
        proof {
            lemma_first_key_after(self.keys@, tick, after as int);
            assert(after > 0);
            assert(after < n);
        }
        let a = self.keys[after - 1];
        let b = self.keys[after];
        Some(Segment::Ease { from: a, to: b, elapsed: tick - a.tick, span: b.tick - a.tick })
    }
}

/// Sampling a track outside its keyed range clamps to the nearest end key,
/// and sampling exactly on a key (of a tick-sorted track) gives that key.
pub proof fn law_sampling_clamps_and_hits_keys(keys: Seq<EffectKey>, tick: u32, i: int)
    requires
        keys.len() > 0,
    ensures
        tick <= keys[0].tick ==> segment_spec(keys, tick) == Some(Segment::Hold(keys[0])),
        tick >= keys.last().tick && tick > keys[0].tick ==> segment_spec(keys, tick) == Some(
            Segment::Hold(keys.last()),
        ),
        (forall|a: int, b: int| 0 <= a < b < keys.len() ==> keys[a].tick < keys[b].tick) && 0 < i
            < keys.len() - 1 && tick == keys[i].tick ==> (segment_spec(keys, tick) matches Some(
            Segment::Ease { from, elapsed, .. },
        ) && from == keys[i] && elapsed == 0),
{
    if (forall|a: int, b: int| 0 <= a < b < keys.len() ==> keys[a].tick < keys[b].tick) && 0 < i
        < keys.len() - 1 && tick == keys[i].tick {
        lemma_first_key_after(keys, tick, 0);
        let after = first_key_after(keys, tick, 0);
        assert(keys[i + 1].tick > tick);
        if after <= i {
            assert(keys[after].tick <= keys[i].tick);
        }
        if after > i + 1 {
            assert(keys[i + 1].tick <= tick);
        }
        assert(after == i + 1);
    }
}

} // verus!
