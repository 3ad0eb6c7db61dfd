//! The theme identities the arenas and panels wear. Colour palettes are
//! presentation and live with the renderer; this is the shared vocabulary.

use vstd::prelude::*;

verus! {

/// The set of available themes.
#[derive(Clone, Copy, PartialEq, Eq, Debug, Hash, Structural)]
pub enum ThemeId {
    Light,
    Dark,
    Synthwave,
    Cyberpunk,
    Forest,
    Lofi,
    Dracula,
    Catppuccin,
    Luxury,
    TokyoNight,
    Coffee,
    GruvboxDark,
    AyuDark,
    Abyss,
    RosePine,
}

/// The display position of a theme in [`ThemeId::ALL`].
pub open spec fn theme_position(t: ThemeId) -> int {
    match t {
        ThemeId::Light => 0,
        ThemeId::Dark => 1,
        ThemeId::Synthwave => 2,
        ThemeId::Cyberpunk => 3,
        ThemeId::Forest => 4,
        ThemeId::Lofi => 5,
        ThemeId::Dracula => 6,
        ThemeId::Catppuccin => 7,
        ThemeId::Luxury => 8,
        ThemeId::TokyoNight => 9,
        ThemeId::Coffee => 10,
        ThemeId::GruvboxDark => 11,
        ThemeId::AyuDark => 12,
        ThemeId::Abyss => 13,
        ThemeId::RosePine => 14,
    }
}

/// The theme at display position `i` (positions past the end wrap).
pub open spec fn theme_at(i: int) -> ThemeId {
    let k = i % 15;
    if k == 0 {
        ThemeId::Light
    } else if k == 1 {
        ThemeId::Dark
    } else if k == 2 {
        ThemeId::Synthwave
    } else if k == 3 {
        ThemeId::Cyberpunk
    } else if k == 4 {
        ThemeId::Forest
    } else if k == 5 {
        ThemeId::Lofi
    } else if k == 6 {
        ThemeId::Dracula
    } else if k == 7 {
        ThemeId::Catppuccin
    } else if k == 8 {
        ThemeId::Luxury
    } else if k == 9 {
        ThemeId::TokyoNight
    } else if k == 10 {
        ThemeId::Coffee
    } else if k == 11 {
        ThemeId::GruvboxDark
    } else if k == 12 {
        ThemeId::AyuDark
    } else if k == 13 {
        ThemeId::Abyss
    } else {
        ThemeId::RosePine
    }
}

pub open spec fn theme_label(t: ThemeId) -> Seq<char> {
    match t {
        ThemeId::Light => "Light"@,
        ThemeId::Dark => "Dark"@,
        ThemeId::Synthwave => "Synthwave"@,
        ThemeId::Cyberpunk => "Cyberpunk"@,
        ThemeId::Forest => "Forest"@,
        ThemeId::Lofi => "Lo-Fi"@,
        ThemeId::Dracula => "Dracula"@,
        ThemeId::Catppuccin => "Catppuccin"@,
        ThemeId::Luxury => "Luxury"@,
        ThemeId::TokyoNight => "Tokyo Night"@,
        ThemeId::Coffee => "Coffee"@,
        ThemeId::GruvboxDark => "Gruvbox Dark"@,
        ThemeId::AyuDark => "Ayu Dark"@,
        ThemeId::Abyss => "Abyss"@,
        ThemeId::RosePine => "Rose Pine"@,
    }
}

impl ThemeId {
    /// Every theme, in display order.
    pub const ALL: [ThemeId; 15] = [
        ThemeId::Light,
        ThemeId::Dark,
        ThemeId::Synthwave,
        ThemeId::Cyberpunk,
        ThemeId::Forest,
        ThemeId::Lofi,
        ThemeId::Dracula,
        ThemeId::Catppuccin,
        ThemeId::Luxury,
        ThemeId::TokyoNight,
        ThemeId::Coffee,
        ThemeId::GruvboxDark,
        ThemeId::AyuDark,
        ThemeId::Abyss,
        ThemeId::RosePine,
    ];

    /// The nine themes the game's arenas wear.
    pub const GAME: [ThemeId; 9] = [
        ThemeId::TokyoNight,
        ThemeId::Coffee,
        ThemeId::Luxury,
        ThemeId::Forest,
        ThemeId::GruvboxDark,
        ThemeId::AyuDark,
        ThemeId::Abyss,
        ThemeId::RosePine,
        ThemeId::Synthwave,
    ];

    /// Human-readable name, e.g. for a theme switcher.
    pub fn label(self) -> (r: &'static str)
        ensures
            r@ == theme_label(self),
    {
        match self {
            ThemeId::Light => "Light",
            ThemeId::Dark => "Dark",
            ThemeId::Synthwave => "Synthwave",
            ThemeId::Cyberpunk => "Cyberpunk",
            ThemeId::Forest => "Forest",
            ThemeId::Lofi => "Lo-Fi",
            ThemeId::Dracula => "Dracula",
            ThemeId::Catppuccin => "Catppuccin",
            ThemeId::Luxury => "Luxury",
            ThemeId::TokyoNight => "Tokyo Night",
            ThemeId::Coffee => "Coffee",
            ThemeId::GruvboxDark => "Gruvbox Dark",
            ThemeId::AyuDark => "Ayu Dark",
            ThemeId::Abyss => "Abyss",
            ThemeId::RosePine => "Rose Pine",
        }
    }

    /// The next theme in display order, wrapping around.
    pub fn next(self) -> (r: ThemeId)
        ensures
            r == theme_at(theme_position(self) + 1),
    {
        match self {
            ThemeId::Light => ThemeId::Dark,
            ThemeId::Dark => ThemeId::Synthwave,
            ThemeId::Synthwave => ThemeId::Cyberpunk,
            ThemeId::Cyberpunk => ThemeId::Forest,
            ThemeId::Forest => ThemeId::Lofi,
            ThemeId::Lofi => ThemeId::Dracula,
            ThemeId::Dracula => ThemeId::Catppuccin,
            ThemeId::Catppuccin => ThemeId::Luxury,
            ThemeId::Luxury => ThemeId::TokyoNight,
            ThemeId::TokyoNight => ThemeId::Coffee,
            ThemeId::Coffee => ThemeId::GruvboxDark,
            ThemeId::GruvboxDark => ThemeId::AyuDark,
            ThemeId::AyuDark => ThemeId::Abyss,
            ThemeId::Abyss => ThemeId::RosePine,
            ThemeId::RosePine => ThemeId::Light,
        }
    }
}

} // verus!
