//! What the HUD chrome is themed to: zoomed in on an arena, that arena's
//! theme and name; on the overworld, the system default.

use vstd::prelude::*;

use crate::arena::{arena_at, arena_name, arena_theme, Arena};
use crate::theme::ThemeId;

verus! {

/// What the HUD follows.
#[derive(Clone, Copy, PartialEq, Eq, Debug, Structural)]
pub enum Focus {
    Overworld,
    Arena(Arena),
}

impl Default for Focus {
    fn default() -> (f: Focus)
        ensures
            f == Focus::Overworld,
    {
        Focus::Overworld
    }
}

/// The overworld's theme: the system default, dark.
pub open spec fn overworld_theme() -> ThemeId {
    ThemeId::Dark
}

impl Focus {
    /// The theme the chrome wears.
    pub fn theme(self) -> (t: ThemeId)
        ensures
            t == match self {
                Focus::Overworld => overworld_theme(),
                Focus::Arena(a) => arena_theme(a),
            },
    {
        match self {
            Focus::Overworld => ThemeId::Dark,
            Focus::Arena(a) => a.theme(),
        }
    }

    /// The top bar's title.
    pub fn title(self) -> (s: &'static str)
        ensures
            s@ == match self {
                Focus::Overworld => "Overworld"@,
                Focus::Arena(a) => arena_name(a),
            },
    {
        match self {
            Focus::Overworld => "Overworld",
            Focus::Arena(a) => a.name(),
        }
    }
}

/// The focus for the camera: zoomed out, the overworld; zoomed in, the
/// arena at grid index `current` (an index off the grid reads as the
/// overworld).
pub fn focus_for(zoomed_out: bool, current: usize) -> (f: Focus)
    ensures
        f == if zoomed_out {
            Focus::Overworld
        } else {
            match arena_at(current as int) {
                Some(a) => Focus::Arena(a),
                None => Focus::Overworld,
            }
        },
{
    if zoomed_out {
        Focus::Overworld
    } else {
        match Arena::from_index(current) {
            Some(a) => Focus::Arena(a),
            None => Focus::Overworld,
        }
    }
}

} // verus!
