use vstd::prelude::*;
use crate::harvest::Harvest;

verus! {

/// What a player plants; each seed grows into the plant of the same name.
#[derive(Debug, Clone, Copy, PartialEq, Eq, Structural, Hash)]
pub enum Seed {
    Wheat,
    Bush,
    Tree,
    Cane,
    Pumpkin,
    Cactus,
    Wallbush,
    Swapshroom,
    Sunflower,
}

/// How many kinds of seed there are.
pub const SEED_KINDS: usize = 9;

pub const TRADE_GRAINS_FOR_BUSH: u32 = 4;
pub const TRADE_WOOD_FOR_TREE: u32 = 4;
pub const TRADE_GRAINS_FOR_CANE: u32 = 2;
pub const TRADE_WOOD_FOR_PUMPKIN: u32 = 16;
pub const TRADE_BERRIES_FOR_PUMPKIN: u32 = 8;
pub const TRADE_WOOD_FOR_CACTUS: u32 = 16;
pub const TRADE_SUGAR_FOR_CACTUS: u32 = 9;
pub const TRADE_PUMKINSEED_FOR_WALLBUSH: u32 = 10;
pub const TRADE_CACTUSMEAT_FOR_SWAPSHROOM: u32 = 9;
pub const TRADE_PUMKINSEED_FOR_SUNFLOWER: u32 = 50;
pub const TRADE_CACTUSMEAT_FOR_SUNFLOWER: u32 = 27;

/// The slot of a seed kind in a player's seed counts.
pub open spec fn seed_slot(s: Seed) -> int {
    match s {
        Seed::Wheat => 0,
        Seed::Bush => 1,
        Seed::Tree => 2,
        Seed::Cane => 3,
        Seed::Pumpkin => 4,
        Seed::Cactus => 5,
        Seed::Wallbush => 6,
        Seed::Swapshroom => 7,
        Seed::Sunflower => 8,
    }
}

/// The price of one seed: a list of (harvest, amount) pairs; empty for a seed
/// that cannot be traded for.
pub open spec fn recipe(s: Seed) -> Seq<(Harvest, u32)> {
    match s {
        Seed::Wheat => seq![],
        Seed::Bush => seq![(Harvest::Grains, TRADE_GRAINS_FOR_BUSH)],
        Seed::Tree => seq![(Harvest::Wood, TRADE_WOOD_FOR_TREE)],
        Seed::Cane => seq![(Harvest::Grains, TRADE_GRAINS_FOR_CANE)],
        Seed::Pumpkin => seq![
            (Harvest::Berry, TRADE_BERRIES_FOR_PUMPKIN),
            (Harvest::Wood, TRADE_WOOD_FOR_PUMPKIN),
        ],
        Seed::Cactus => seq![
            (Harvest::Sugar, TRADE_SUGAR_FOR_CACTUS),
            (Harvest::Wood, TRADE_WOOD_FOR_CACTUS),
        ],
        Seed::Wallbush => seq![(Harvest::PumpkinSeed, TRADE_PUMKINSEED_FOR_WALLBUSH)],
        Seed::Swapshroom => seq![(Harvest::CactusMeat, TRADE_CACTUSMEAT_FOR_SWAPSHROOM)],
        Seed::Sunflower => seq![
            (Harvest::PumpkinSeed, TRADE_PUMKINSEED_FOR_SUNFLOWER),
            (Harvest::CactusMeat, TRADE_CACTUSMEAT_FOR_SUNFLOWER),
        ],
    }
}

impl Seed {
    /// The slot of this kind in a player's seed counts.
    pub fn slot(&self) -> (r: usize)
        ensures
            r == seed_slot(*self),
            r < SEED_KINDS,
    {
        match self {
            Seed::Wheat => 0,
            Seed::Bush => 1,
            Seed::Tree => 2,
            Seed::Cane => 3,
            Seed::Pumpkin => 4,
            Seed::Cactus => 5,
            Seed::Wallbush => 6,
            Seed::Swapshroom => 7,
            Seed::Sunflower => 8,
        }
    }

    /// The kind stored in slot `i`.
    pub fn from_slot(i: usize) -> (r: Seed)
        requires
            i < SEED_KINDS,
        ensures
            seed_slot(r) == i,
    {
        match i {
            0 => Seed::Wheat,
            1 => Seed::Bush,
            2 => Seed::Tree,
            3 => Seed::Cane,
            4 => Seed::Pumpkin,
            5 => Seed::Cactus,
            6 => Seed::Wallbush,
            7 => Seed::Swapshroom,
            _ => Seed::Sunflower,
        }
    }

    /// The price of one seed of this kind.
    pub fn recipe(&self) -> (r: Vec<(Harvest, u32)>)
        ensures
            r@ == recipe(*self),
    {
        match self {
            Seed::Wheat => vec![],
            Seed::Bush => vec![(Harvest::Grains, TRADE_GRAINS_FOR_BUSH)],
            Seed::Tree => vec![(Harvest::Wood, TRADE_WOOD_FOR_TREE)],
            Seed::Cane => vec![(Harvest::Grains, TRADE_GRAINS_FOR_CANE)],
            Seed::Pumpkin => vec![
                (Harvest::Berry, TRADE_BERRIES_FOR_PUMPKIN),
                (Harvest::Wood, TRADE_WOOD_FOR_PUMPKIN),
            ],
            Seed::Cactus => vec![
                (Harvest::Sugar, TRADE_SUGAR_FOR_CACTUS),
                (Harvest::Wood, TRADE_WOOD_FOR_CACTUS),
            ],
            Seed::Wallbush => vec![(Harvest::PumpkinSeed, TRADE_PUMKINSEED_FOR_WALLBUSH)],
            Seed::Swapshroom => vec![(Harvest::CactusMeat, TRADE_CACTUSMEAT_FOR_SWAPSHROOM)],
            Seed::Sunflower => vec![
                (Harvest::PumpkinSeed, TRADE_PUMKINSEED_FOR_SUNFLOWER),
                (Harvest::CactusMeat, TRADE_CACTUSMEAT_FOR_SUNFLOWER),
            ],
        }
    }
}

} // verus!
