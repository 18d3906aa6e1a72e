use vstd::prelude::*;

verus! {

/// What a player collects from a mature plant.
#[derive(Debug, Clone, Copy, PartialEq, Eq, Structural, Hash)]
pub enum Harvest {
    Grains,
    Berry,
    Wood,
    Sugar,
    PumpkinSeed,
    CactusMeat,
    Power,
}

/// How many kinds of harvest there are.
pub const HARVEST_KINDS: usize = 7;

/// The slot of a harvest kind in a player's harvest counts.
pub open spec fn harvest_slot(h: Harvest) -> int {
    match h {
        Harvest::Grains => 0,
        Harvest::Berry => 1,
        Harvest::Wood => 2,
        Harvest::Sugar => 3,
        Harvest::PumpkinSeed => 4,
        Harvest::CactusMeat => 5,
        Harvest::Power => 6,
    }
}

impl Harvest {
    /// The slot of this kind in a player's harvest counts.
    pub fn slot(&self) -> (r: usize)
        ensures
            r == harvest_slot(*self),
            r < HARVEST_KINDS,
    {
        match self {
            Harvest::Grains => 0,
            Harvest::Berry => 1,
            Harvest::Wood => 2,
            Harvest::Sugar => 3,
            Harvest::PumpkinSeed => 4,
            Harvest::CactusMeat => 5,
            Harvest::Power => 6,
        }
    }

    /// The kind stored in slot `i`.
    pub fn from_slot(i: usize) -> (r: Harvest)
        requires
            i < HARVEST_KINDS,
        ensures
            harvest_slot(r) == i,
    {
        match i {
            0 => Harvest::Grains,
            1 => Harvest::Berry,
            2 => Harvest::Wood,
            3 => Harvest::Sugar,
            4 => Harvest::PumpkinSeed,
            5 => Harvest::CactusMeat,
            _ => Harvest::Power,
        }
    }
}

} // verus!
