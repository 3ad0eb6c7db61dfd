//! What each arena looks like, as data: its two atmosphere planes' cloud
//! styles, its sky-swarm (drift, mote, how many), and its boss (a hollow
//! shell with a light behaviour, or the Guild House's home). The sizes,
//! colours and motion curves these name are render work outside the library.

use vstd::prelude::*;

use crate::arena::Arena;

verus! {

/// The effect an atmosphere plane runs.
#[derive(Clone, Copy, PartialEq, Eq, Debug, Structural)]
pub enum CloudStyle {
    Banded,
    Billows,
    Vertical,
    Spiral,
    Embers,
    Sweep,
    Pulse,
    Hearth,
    Grain,
    Streaks,
    Ripple,
}

/// The number a cloud style is packed as for the atmosphere shader.
pub open spec fn style_index(s: CloudStyle) -> u32 {
    match s {
        CloudStyle::Banded => 0,
        CloudStyle::Billows => 1,
        CloudStyle::Vertical => 2,
        CloudStyle::Spiral => 3,
        CloudStyle::Embers => 4,
        CloudStyle::Sweep => 5,
        CloudStyle::Pulse => 6,
        CloudStyle::Hearth => 7,
        CloudStyle::Grain => 8,
        CloudStyle::Streaks => 9,
        CloudStyle::Ripple => 10,
    }
}

impl CloudStyle {
    /// The number the shader reads for this style.
    pub fn index(self) -> (i: u32)
        ensures
            i == style_index(self),
    {
        match self {
            CloudStyle::Banded => 0,
            CloudStyle::Billows => 1,
            CloudStyle::Vertical => 2,
            CloudStyle::Spiral => 3,
            CloudStyle::Embers => 4,
            CloudStyle::Sweep => 5,
            CloudStyle::Pulse => 6,
            CloudStyle::Hearth => 7,
            CloudStyle::Grain => 8,
            CloudStyle::Streaks => 9,
            CloudStyle::Ripple => 10,
        }
    }
}

/// A swarm mote's silhouette.
#[derive(Clone, Copy, PartialEq, Eq, Debug, Structural)]
pub enum Mote {
    /// Round glow-mote (ember, spore).
    Spark,
    /// Flat quad (gilt-leaf, ash flake, coin, confetti).
    Flake,
    /// Elongated sliver (scout dart, bat).
    Dart,
    /// Soft round bubble (alchemical vapour).
    Bubble,
}

/// An arena's swarm drift archetype.
#[derive(Clone, Copy, PartialEq, Eq, Debug, Structural)]
pub enum SwarmMotion {
    Patrol,
    HearthRise,
    PendulumFall,
    GustDrift,
    UpdraftChurn,
    FurtiveDart,
    OpposingDrift,
    TumbleArc,
    BeatDrift,
}

/// A hollow boss's dark shell.
#[derive(Clone, Copy, PartialEq, Eq, Debug, Structural)]
pub enum BossShell {
    Obelisk,
    TruncatedCone,
    TorusHalo,
    HexPrism,
    TriangularPrism,
    CapsuleResonator,
    SteppedPyramid,
    HollowIcosphere,
}

/// The scene file each shell is spawned from.
pub open spec fn shell_model(s: BossShell) -> Seq<char> {
    match s {
        BossShell::Obelisk => "models/hollow_obelisk.glb#Scene0"@,
        BossShell::TruncatedCone => "models/truncated_cone.glb#Scene0"@,
        BossShell::TorusHalo => "models/torus_halo.glb#Scene0"@,
        BossShell::HexPrism => "models/hex_prism.glb#Scene0"@,
        BossShell::TriangularPrism => "models/triangular_prism.glb#Scene0"@,
        BossShell::CapsuleResonator => "models/capsule_resonator.glb#Scene0"@,
        BossShell::SteppedPyramid => "models/stepped_pyramid.glb#Scene0"@,
        BossShell::HollowIcosphere => "models/hollow_icosphere.glb#Scene0"@,
    }
}

impl BossShell {
    /// The scene path of this shell: the one place a shell maps to its file.
    pub fn model(self) -> (r: &'static str)
        ensures
            r@ == shell_model(self),
    {
        match self {
            BossShell::Obelisk => "models/hollow_obelisk.glb#Scene0",
            BossShell::TruncatedCone => "models/truncated_cone.glb#Scene0",
            BossShell::TorusHalo => "models/torus_halo.glb#Scene0",
            BossShell::HexPrism => "models/hex_prism.glb#Scene0",
            BossShell::TriangularPrism => "models/triangular_prism.glb#Scene0",
            BossShell::CapsuleResonator => "models/capsule_resonator.glb#Scene0",
            BossShell::SteppedPyramid => "models/stepped_pyramid.glb#Scene0",
            BossShell::HollowIcosphere => "models/hollow_icosphere.glb#Scene0",
        }
    }
}

/// How a hollow boss's light core animates.
#[derive(Clone, Copy, PartialEq, Eq, Debug, Structural)]
pub enum LightBehavior {
    ObeliskBlade,
    CauldronRise,
    HaloFill,
    PrismBlock,
    WedgeBeam,
    CapsulePulse,
    ZigguratGrow,
    GeodeShimmer,
}

/// An arena's boss: a hollow shell with a light behaviour, or the Guild
/// House's home.
#[derive(Clone, Copy, PartialEq, Eq, Debug, Structural)]
pub enum BossLook {
    Hollow { shell: BossShell, behavior: LightBehavior },
    Home,
}

/// What an arena looks like: its sky and foreground cloud styles, its
/// swarm's drift, mote and count, and its boss.
#[derive(Clone, Copy, PartialEq, Eq, Debug, Structural)]
pub struct ArenaLook {
    pub sky: CloudStyle,
    pub fg: CloudStyle,
    pub motion: SwarmMotion,
    pub mote: Mote,
    pub count: usize,
    pub boss: BossLook,
}

/// The look table: one entry per arena.
pub open spec fn arena_look(a: Arena) -> ArenaLook {
    match a {
        Arena::Hunter => ArenaLook {
            sky: CloudStyle::Banded,
            fg: CloudStyle::Streaks,
            motion: SwarmMotion::Patrol,
            mote: Mote::Dart,
            count: 12,
            boss: BossLook::Hollow { shell: BossShell::Obelisk, behavior: LightBehavior::ObeliskBlade },
        },
        Arena::Guildmaster => ArenaLook {
            sky: CloudStyle::Hearth,
            fg: CloudStyle::Embers,
            motion: SwarmMotion::HearthRise,
            mote: Mote::Spark,
            count: 14,
            boss: BossLook::Home,
        },
        Arena::Cardinal => ArenaLook {
            sky: CloudStyle::Billows,
            fg: CloudStyle::Grain,
            motion: SwarmMotion::PendulumFall,
            mote: Mote::Flake,
            count: 12,
            boss: BossLook::Hollow { shell: BossShell::TorusHalo, behavior: LightBehavior::HaloFill },
        },
        Arena::Forager => ArenaLook {
            sky: CloudStyle::Vertical,
            fg: CloudStyle::Grain,
            motion: SwarmMotion::GustDrift,
            mote: Mote::Spark,
            count: 16,
            boss: BossLook::Hollow { shell: BossShell::SteppedPyramid, behavior: LightBehavior::ZigguratGrow },
        },
        Arena::Warrior => ArenaLook {
            sky: CloudStyle::Vertical,
            fg: CloudStyle::Embers,
            motion: SwarmMotion::UpdraftChurn,
            mote: Mote::Flake,
            count: 13,
            boss: BossLook::Hollow { shell: BossShell::HexPrism, behavior: LightBehavior::PrismBlock },
        },
        Arena::Thief => ArenaLook {
            sky: CloudStyle::Banded,
            fg: CloudStyle::Sweep,
            motion: SwarmMotion::FurtiveDart,
            mote: Mote::Dart,
            count: 10,
            boss: BossLook::Hollow { shell: BossShell::TriangularPrism, behavior: LightBehavior::WedgeBeam },
        },
        Arena::Alchemist => ArenaLook {
            sky: CloudStyle::Billows,
            fg: CloudStyle::Ripple,
            motion: SwarmMotion::OpposingDrift,
            mote: Mote::Bubble,
            count: 14,
            boss: BossLook::Hollow { shell: BossShell::TruncatedCone, behavior: LightBehavior::CauldronRise },
        },
        Arena::Merchant => ArenaLook {
            sky: CloudStyle::Spiral,
            fg: CloudStyle::Streaks,
            motion: SwarmMotion::TumbleArc,
            mote: Mote::Flake,
            count: 12,
            boss: BossLook::Hollow { shell: BossShell::HollowIcosphere, behavior: LightBehavior::GeodeShimmer },
        },
        Arena::Bard => ArenaLook {
            sky: CloudStyle::Billows,
            fg: CloudStyle::Pulse,
            motion: SwarmMotion::BeatDrift,
            mote: Mote::Flake,
            count: 16,
            boss: BossLook::Hollow { shell: BossShell::CapsuleResonator, behavior: LightBehavior::CapsulePulse },
        },
    }
}

/// What `arena` looks like.
pub fn look(arena: Arena) -> (l: ArenaLook)
    ensures
        l == arena_look(arena),
{
    match arena {
            Arena::Hunter => ArenaLook {
                sky: CloudStyle::Banded,
                fg: CloudStyle::Streaks,
                motion: SwarmMotion::Patrol,
                mote: Mote::Dart,
                count: 12,
                boss: BossLook::Hollow { shell: BossShell::Obelisk, behavior: LightBehavior::ObeliskBlade },
            },
            Arena::Guildmaster => ArenaLook {
                sky: CloudStyle::Hearth,
                fg: CloudStyle::Embers,
                motion: SwarmMotion::HearthRise,
                mote: Mote::Spark,
                count: 14,
                boss: BossLook::Home,
            },
            Arena::Cardinal => ArenaLook {
                sky: CloudStyle::Billows,
                fg: CloudStyle::Grain,
                motion: SwarmMotion::PendulumFall,
                mote: Mote::Flake,
                count: 12,
                boss: BossLook::Hollow { shell: BossShell::TorusHalo, behavior: LightBehavior::HaloFill },
            },
            Arena::Forager => ArenaLook {
                sky: CloudStyle::Vertical,
                fg: CloudStyle::Grain,
                motion: SwarmMotion::GustDrift,
                mote: Mote::Spark,
                count: 16,
                boss: BossLook::Hollow { shell: BossShell::SteppedPyramid, behavior: LightBehavior::ZigguratGrow },
            },
            Arena::Warrior => ArenaLook {
                sky: CloudStyle::Vertical,
                fg: CloudStyle::Embers,
                motion: SwarmMotion::UpdraftChurn,
                mote: Mote::Flake,
                count: 13,
                boss: BossLook::Hollow { shell: BossShell::HexPrism, behavior: LightBehavior::PrismBlock },
            },
            Arena::Thief => ArenaLook {
                sky: CloudStyle::Banded,
                fg: CloudStyle::Sweep,
                motion: SwarmMotion::FurtiveDart,
                mote: Mote::Dart,
                count: 10,
                boss: BossLook::Hollow { shell: BossShell::TriangularPrism, behavior: LightBehavior::WedgeBeam },
            },
            Arena::Alchemist => ArenaLook {
                sky: CloudStyle::Billows,
                fg: CloudStyle::Ripple,
                motion: SwarmMotion::OpposingDrift,
                mote: Mote::Bubble,
                count: 14,
                boss: BossLook::Hollow { shell: BossShell::TruncatedCone, behavior: LightBehavior::CauldronRise },
            },
            Arena::Merchant => ArenaLook {
                sky: CloudStyle::Spiral,
                fg: CloudStyle::Streaks,
                motion: SwarmMotion::TumbleArc,
                mote: Mote::Flake,
                count: 12,
                boss: BossLook::Hollow { shell: BossShell::HollowIcosphere, behavior: LightBehavior::GeodeShimmer },
            },
            Arena::Bard => ArenaLook {
                sky: CloudStyle::Billows,
                fg: CloudStyle::Pulse,
                motion: SwarmMotion::BeatDrift,
                mote: Mote::Flake,
                count: 16,
                boss: BossLook::Hollow { shell: BossShell::CapsuleResonator, behavior: LightBehavior::CapsulePulse },
            },
    }
}

/// Every arena but the Guild House has a hollow boss, no two of them share
/// a shell or a light behaviour, and no two arenas share a swarm drift.
pub proof fn law_each_boss_is_its_own(a: Arena, b: Arena)
    ensures
        (arena_look(a).boss is Home) <==> a == Arena::Guildmaster,
        a != b ==> arena_look(a).motion != arena_look(b).motion,
        a != b ==> match (arena_look(a).boss, arena_look(b).boss) {
            (BossLook::Hollow { shell: s1, behavior: l1 }, BossLook::Hollow { shell: s2, behavior: l2 }) => s1
                != s2 && l1 != l2,
            _ => true,
        },
{
}

} // verus!
