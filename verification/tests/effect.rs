use arenic::effect::{EaseKind, EffectKey, EffectKind, EffectTrack, Segment};

fn key(tick: u32, value: f32, ease: EaseKind) -> EffectKey {
    EffectKey { tick, value_bits: value.to_bits(), ease }
}

/// The value a track shows at `tick`, for the two eases these tests use
/// (linear interpolation, and hold-until-the-next-key).
fn sample(track: &EffectTrack, tick: u32) -> Option<f32> {
    match track.segment(tick)? {
        Segment::Hold(k) => Some(f32::from_bits(k.value_bits)),
        Segment::Ease { from, to, elapsed, span } => {
            let a = f32::from_bits(from.value_bits);
            let b = f32::from_bits(to.value_bits);
            match from.ease {
                EaseKind::Hold => Some(a),
                EaseKind::Linear => Some(a + (b - a) * (elapsed as f32 / span as f32)),
                other => panic!("no float easing for {other:?} here"),
            }
        }
    }
}

#[test]
fn sampling_clamps_outside_and_eases_between() {
    let track = EffectTrack {
        kind: EffectKind::Scale,
        keys: vec![key(60, 1.0, EaseKind::Linear), key(120, 3.0, EaseKind::Linear)],
    };
    assert_eq!(sample(&track, 0), Some(1.0));
    assert_eq!(sample(&track, 60), Some(1.0));
    assert_eq!(sample(&track, 90), Some(2.0));
    assert_eq!(sample(&track, 120), Some(3.0));
    assert_eq!(sample(&track, 7_000), Some(3.0));
    let empty = EffectTrack { kind: EffectKind::Opacity, keys: vec![] };
    assert_eq!(sample(&empty, 0), None);
}

#[test]
fn hold_keys_step_at_the_segment_end() {
    let track = EffectTrack {
        kind: EffectKind::Opacity,
        keys: vec![key(0, 0.2, EaseKind::Hold), key(100, 0.9, EaseKind::Linear)],
    };
    assert_eq!(sample(&track, 0), Some(0.2));
    assert_eq!(sample(&track, 50), Some(0.2));
    assert_eq!(sample(&track, 99), Some(0.2));
    assert_eq!(sample(&track, 100), Some(0.9));
}

#[test]
fn segments_name_the_adjacent_keys() {
    let a = key(10, 1.0, EaseKind::CubicInOut);
    let b = key(40, 2.0, EaseKind::Linear);
    let c = key(100, 3.0, EaseKind::Linear);
    let track = EffectTrack { kind: EffectKind::Scale, keys: vec![a, b, c] };
    assert_eq!(track.segment(5), Some(Segment::Hold(a)));
    assert_eq!(track.segment(40), Some(Segment::Ease { from: b, to: c, elapsed: 0, span: 60 }));
    assert_eq!(track.segment(39), Some(Segment::Ease { from: a, to: b, elapsed: 29, span: 30 }));
    assert_eq!(track.segment(100), Some(Segment::Hold(c)));
}

#[test]
fn ease_names_are_their_variant_names() {
    assert_eq!(EaseKind::Linear.name(), format!("{:?}", EaseKind::Linear));
    assert_eq!(EaseKind::BounceInOut.name(), "BounceInOut");
    assert_eq!(EaseKind::SmoothStep.name(), format!("{:?}", EaseKind::SmoothStep));
    assert_eq!(EaseKind::Hold.name(), "Hold");
}
