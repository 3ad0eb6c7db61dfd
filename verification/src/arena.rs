//! The canonical nine-arena identity: each [`Arena`] is a class's home in the
//! 3×3 grid (index `0..9`, row-major) and carries its display name, its
//! directory slug, and the theme it wears.

use vstd::prelude::*;

use crate::theme::ThemeId;

verus! {

/// One of the nine arenas (3×3 grid, row-major).
#[derive(Clone, Copy, PartialEq, Eq, Debug, Hash, Structural)]
pub enum Arena {
    Hunter,
    Guildmaster,
    Cardinal,
    Forager,
    Warrior,
    Thief,
    Alchemist,
    Merchant,
    Bard,
}

/// The grid index of an arena.
pub open spec fn arena_index(a: Arena) -> int {
    match a {
        Arena::Hunter => 0,
        Arena::Guildmaster => 1,
        Arena::Cardinal => 2,
        Arena::Forager => 3,
        Arena::Warrior => 4,
        Arena::Thief => 5,
        Arena::Alchemist => 6,
        Arena::Merchant => 7,
        Arena::Bard => 8,
    }
}

/// The arena at grid index `i`, if `i` is one.
pub open spec fn arena_at(i: int) -> Option<Arena> {
    if i == 0 {
        Some(Arena::Hunter)
    } else if i == 1 {
        Some(Arena::Guildmaster)
    } else if i == 2 {
        Some(Arena::Cardinal)
    } else if i == 3 {
        Some(Arena::Forager)
    } else if i == 4 {
        Some(Arena::Warrior)
    } else if i == 5 {
        Some(Arena::Thief)
    } else if i == 6 {
        Some(Arena::Alchemist)
    } else if i == 7 {
        Some(Arena::Merchant)
    } else if i == 8 {
        Some(Arena::Bard)
    } else {
        None
    }
}

pub open spec fn arena_name(a: Arena) -> Seq<char> {
    match a {
        Arena::Hunter => "Labyrinth"@,
        Arena::Guildmaster => "Guild House"@,
        Arena::Cardinal => "Sanctum"@,
        Arena::Forager => "Mountain"@,
        Arena::Warrior => "Bastion"@,
        Arena::Thief => "Pawnshop"@,
        Arena::Alchemist => "Crucible"@,
        Arena::Merchant => "Casino"@,
        Arena::Bard => "Gala"@,
    }
}

pub open spec fn arena_slug(a: Arena) -> Seq<char> {
    match a {
        Arena::Hunter => "labyrinth"@,
        Arena::Guildmaster => "guild-house"@,
        Arena::Cardinal => "sanctum"@,
        Arena::Forager => "mountain"@,
        Arena::Warrior => "bastion"@,
        Arena::Thief => "pawnshop"@,
        Arena::Alchemist => "crucible"@,
        Arena::Merchant => "casino"@,
        Arena::Bard => "gala"@,
    }
}

pub open spec fn arena_theme(a: Arena) -> ThemeId {
    match a {
        Arena::Hunter => ThemeId::TokyoNight,
        Arena::Guildmaster => ThemeId::Coffee,
        Arena::Cardinal => ThemeId::Luxury,
        Arena::Forager => ThemeId::Forest,
        Arena::Warrior => ThemeId::GruvboxDark,
        Arena::Thief => ThemeId::AyuDark,
        Arena::Alchemist => ThemeId::Abyss,
        Arena::Merchant => ThemeId::RosePine,
        Arena::Bard => ThemeId::Synthwave,
    }
}

/// A name's path-safe spelling: ASCII letters lowered, spaces as hyphens.
pub open spec fn kebab(name: Seq<char>) -> Seq<char> {
    name.map_values(
        |c: char|
            if c == ' ' {
                '-'
            } else if 'A' <= c <= 'Z' {
                ((c as u32) + 32) as char
            } else {
                c
            },
    )
}

/// Lower-case ASCII letters and hyphens only.
pub open spec fn path_safe(s: Seq<char>) -> bool {
    forall|i: int| 0 <= i < s.len() ==> ('a' <= #[trigger] s[i] <= 'z' || s[i] == '-')
}

impl Arena {
    /// All nine arenas in grid order.
    pub const ALL: [Arena; 9] = [
        Arena::Hunter,
        Arena::Guildmaster,
        Arena::Cardinal,
        Arena::Forager,
        Arena::Warrior,
        Arena::Thief,
        Arena::Alchemist,
        Arena::Merchant,
        Arena::Bard,
    ];

    /// This arena's grid index (`0..9`).
    pub fn index(self) -> (i: usize)
        ensures
            i == arena_index(self),
            i < 9,
    {
        match self {
            Arena::Hunter => 0,
            Arena::Guildmaster => 1,
            Arena::Cardinal => 2,
            Arena::Forager => 3,
            Arena::Warrior => 4,
            Arena::Thief => 5,
            Arena::Alchemist => 6,
            Arena::Merchant => 7,
            Arena::Bard => 8,
        }
    }

    /// The arena at grid index `i`, or `None` if out of range.
    pub fn from_index(i: usize) -> (a: Option<Arena>)
        ensures
            a == arena_at(i as int),
            a is Some <==> i < 9,
    {
        match i {
            0 => Some(Arena::Hunter),
            1 => Some(Arena::Guildmaster),
            2 => Some(Arena::Cardinal),
            3 => Some(Arena::Forager),
            4 => Some(Arena::Warrior),
            5 => Some(Arena::Thief),
            6 => Some(Arena::Alchemist),
            7 => Some(Arena::Merchant),
            8 => Some(Arena::Bard),
            _ => None,
        }
    }

    /// The arena's display name (the place, not the class that calls it home).
    pub fn name(self) -> (r: &'static str)
        ensures
            r@ == arena_name(self),
    {
        match self {
            Arena::Hunter => "Labyrinth",
            Arena::Guildmaster => "Guild House",
            Arena::Cardinal => "Sanctum",
            Arena::Forager => "Mountain",
            Arena::Warrior => "Bastion",
            Arena::Thief => "Pawnshop",
            Arena::Alchemist => "Crucible",
            Arena::Merchant => "Casino",
            Arena::Bard => "Gala",
        }
    }

    /// The arena's kebab-case slug — its directory name under the encounter
    /// files. Pinned here so a display-name tweak can't orphan score files.
    pub fn slug(self) -> (r: &'static str)
        ensures
            r@ == arena_slug(self),
    {
        match self {
            Arena::Hunter => "labyrinth",
            Arena::Guildmaster => "guild-house",
            Arena::Cardinal => "sanctum",
            Arena::Forager => "mountain",
            Arena::Warrior => "bastion",
            Arena::Thief => "pawnshop",
            Arena::Alchemist => "crucible",
            Arena::Merchant => "casino",
            Arena::Bard => "gala",
        }
    }

    /// The theme this arena wears.
    pub fn theme(self) -> (t: ThemeId)
        ensures
            t == arena_theme(self),
    {
        match self {
            Arena::Hunter => ThemeId::TokyoNight,
            Arena::Guildmaster => ThemeId::Coffee,
            Arena::Cardinal => ThemeId::Luxury,
            Arena::Forager => ThemeId::Forest,
            Arena::Warrior => ThemeId::GruvboxDark,
            Arena::Thief => ThemeId::AyuDark,
            Arena::Alchemist => ThemeId::Abyss,
            Arena::Merchant => ThemeId::RosePine,
            Arena::Bard => ThemeId::Synthwave,
        }
    }
}

/// Grid indices and arenas correspond one to one: every arena's index maps
/// back to it, and every index below nine names an arena with that index.
pub proof fn law_index_round_trip(a: Arena, i: int)
    ensures
        arena_at(arena_index(a)) == Some(a),
        0 <= i < 9 ==> arena_at(i) is Some && arena_index(arena_at(i)->0) == i,
        !(0 <= i < 9) ==> arena_at(i) is None,
{
}

/// Every arena's slug is its name spelled path-safe (lower-case, spaces as
/// hyphens), and uses only lower-case letters and hyphens.
pub proof fn law_slug_is_kebab_name(a: Arena)
    ensures
        arena_slug(a) == kebab(arena_name(a)),
        path_safe(arena_slug(a)),
{
    reveal_strlit("Labyrinth");
    reveal_strlit("Guild House");
    reveal_strlit("Sanctum");
    reveal_strlit("Mountain");
    reveal_strlit("Bastion");
    reveal_strlit("Pawnshop");
    reveal_strlit("Crucible");
    reveal_strlit("Casino");
    reveal_strlit("Gala");
    reveal_strlit("labyrinth");
    reveal_strlit("guild-house");
    reveal_strlit("sanctum");
    reveal_strlit("mountain");
    reveal_strlit("bastion");
    reveal_strlit("pawnshop");
    reveal_strlit("crucible");
    reveal_strlit("casino");
    reveal_strlit("gala");
    assert(arena_slug(a) =~= kebab(arena_name(a)));
}

/// The nine arenas wear nine different themes, exactly the game set.
pub proof fn law_arena_themes_are_distinct(a: Arena, b: Arena)
    ensures
        arena_theme(a) == arena_theme(b) ==> a == b,
{
}

} // verus!
