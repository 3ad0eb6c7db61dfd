//! The identity of one castable ability — the shared data structure for hero
//! and boss abilities alike, so the two can never structurally drift.

use vstd::prelude::*;

verus! {

/// One castable ability.
#[derive(Clone, Copy, PartialEq, Eq, Debug, Structural)]
pub enum AbilityId {
    HolyNova,
}

pub open spec fn ability_name(a: AbilityId) -> Seq<char> {
    match a {
        AbilityId::HolyNova => "Holy"@,
    }
}

impl AbilityId {
    /// The short display name shown on the hotbar — one word so a slot's
    /// label never wraps.
    pub fn name(self) -> (r: &'static str)
        ensures
            r@ == ability_name(self),
    {
        match self {
            AbilityId::HolyNova => "Holy",
        }
    }
}

} // verus!
