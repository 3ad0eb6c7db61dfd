//! What the music engine should be playing, and when it needs a new sink.
//!
//! One [`DesiredMusic`] names the target; the engine crossfades looping sinks
//! toward it (the fade itself is audio-side). The title plays the theme, a
//! zoomed-in arena its own track (if it has one), and the overworld the
//! procedural drone.

use vstd::prelude::*;

use crate::arena::Arena;

verus! {

/// What the music engine should be playing.
#[derive(Clone, Copy, PartialEq, Eq, Debug, Structural)]
pub enum MusicTarget {
    /// The title screen's theme.
    Theme,
    /// The arena's own soundtrack (silence if it has none yet).
    Track(Arena),
    /// The overworld's procedural oscillator drone.
    Drone,
    /// Fade everything out.
    Silence,
}

/// The one knob a driver turns; the engine handles spawn, crossfade and
/// despawn.
#[derive(Clone, Copy, PartialEq, Eq, Debug, Structural)]
pub struct DesiredMusic(pub MusicTarget);

impl Default for DesiredMusic {
    fn default() -> (d: DesiredMusic)
        ensures
            d.0 == MusicTarget::Silence,
    {
        DesiredMusic(MusicTarget::Silence)
    }
}

/// The soundtrack file of each arena that has one.
pub open spec fn arena_track_spec(arena: Arena) -> Option<Seq<char>> {
    match arena {
        Arena::Warrior => Some("music/warrior_bastion.mp3"@),
        Arena::Merchant => Some("music/merchant_casino.mp3"@),
        _ => None,
    }
}

/// The arena's soundtrack file under the assets, if one has landed; a
/// zoomed-in visit to an arena without one plays no music.
pub fn arena_track(arena: Arena) -> (r: Option<&'static str>)
    ensures
        match arena_track_spec(arena) {
            Some(p) => r matches Some(s) && s@ == p,
            None => r is None,
        },
{
    match arena {
        Arena::Warrior => Some("music/warrior_bastion.mp3"),
        Arena::Merchant => Some("music/merchant_casino.mp3"),
        _ => None,
    }
}

/// The target while the game runs: the overworld drone when zoomed out, the
/// current arena's track when zoomed in.
pub fn intro_music(zoomed_out: bool, current: Arena) -> (t: MusicTarget)
    ensures
        t == if zoomed_out {
            MusicTarget::Drone
        } else {
            MusicTarget::Track(current)
        },
{
    if zoomed_out {
        MusicTarget::Drone
    } else {
        MusicTarget::Track(current)
    }
}

/// The sink the engine must start for `target`, given the targets of the
/// sinks alive now: none if one already plays it (a fading-out sink of the
/// same target is simply tended back up), none for silence, and none for a
/// track whose arena has no soundtrack file.
pub open spec fn sink_to_start(target: MusicTarget, channels: Seq<MusicTarget>) -> Option<MusicTarget> {
    if channels.contains(target) {
        None
    } else {
        match target {
            MusicTarget::Silence => None,
            MusicTarget::Track(arena) => if arena_track_spec(arena) is Some {
                Some(target)
            } else {
                None
            },
            _ => Some(target),
        }
    }
}

/// Which new music sink, if any, to spawn this frame.
pub fn music_sink_to_start(target: MusicTarget, channels: &Vec<MusicTarget>) -> (r: Option<MusicTarget>)
    ensures
        r == sink_to_start(target, channels@),
{
    let mut i: usize = 0;
    while i < channels.len()
        invariant
            i <= channels@.len(),
            forall|k: int| 0 <= k < i ==> channels@[k] != target,
        decreases channels@.len() - i,
    {
        if channels[i] == target {
            return None;
        }
        i = i + 1;
    }
    match target {
        MusicTarget::Silence => None,
        MusicTarget::Track(arena) => match arena_track(arena) {
            Some(_) => Some(target),
            None => None,
        },
        _ => Some(target),
    }
}

} // verus!
