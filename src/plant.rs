use vstd::prelude::*;

verus! {

/// What grows on a cell, with the state of each kind of plant.
#[derive(Debug, Clone, Copy, PartialEq, Eq, Structural)]
pub enum Plant {
    Empty,
    Wheat(Wheat),
    Bush(Bush),
    Tree(Tree),
    Cane(Cane),
    Pumpkin(Pumpkin),
    Cactus(Cactus),
    Wallbush(Wallbush),
    Swapshroom(Swapshroom),
    Sunflower(Sunflower),
}

#[derive(Debug, Clone, Copy, PartialEq, Eq, Structural)]
pub struct Wheat {
    pub growth: u8,
}

impl Wheat {
    pub const GROWTH_TO_GRAINS: u8 = 8;
    pub const GRAINS_YIELD: u32 = 1;
    pub const POINTS_PER_GRAINS: u32 = 1;
}

#[derive(Debug, Clone, Copy, PartialEq, Eq, Structural)]
pub struct Bush {
    pub growth: u8,
    pub berries: u8,
}

impl Bush {
    pub const GROWTH_TO_WOOD: u8 = 10;
    pub const WOOD_YIELD: u32 = 1;
    pub const POINTS_PER_WOOD: u32 = 1;
    pub const GROWTH_PER_BERRIES: u8 = 4;
    pub const MAX_BERRIES: u8 = 4;
    pub const POINTS_PER_BERRIES: u32 = 2;
    /// The growth at which a bush carries all its berries.
    pub const MAX_GROWTH: u8 = 26;
}

#[derive(Debug, Clone, Copy, PartialEq, Eq, Structural)]
pub struct Tree {
    pub growth: u8,
}

impl Tree {
    pub const GROWTH_TO_WOOD: u8 = 16;
    pub const WOOD_YIELD: u32 = 16;
    pub const POINTS_PER_WOOD: u32 = 1;
}

#[derive(Debug, Clone, Copy, PartialEq, Eq, Structural)]
pub struct Cane {
    pub growth: u8,
}

impl Cane {
    pub const GROWTH_TO_SUGAR: u8 = 10;
    pub const SUGAR_YIELD: u32 = 3;
    pub const POINTS_PER_SUGAR: u32 = 2;
}

#[derive(Debug, Clone, Copy, PartialEq, Eq, Structural)]
pub struct Pumpkin {
    pub growth: u8,
    pub current_size: u8,
    pub max_size: u8,
}

impl Pumpkin {
    pub const GROWTH_TO_PUMPKINSEED: u8 = 4;
    pub const POINTS_PER_PUMPKINSEED: u32 = 5;
    /// One for the pumpkin itself and one for each of its four neighbours.
    pub const LARGEST_SIZE: u8 = 5;
    pub const MAX_GROWTH: u8 = 20;

    /// Pumpkin seeds yielded: the square of the current size.
    pub fn pumpkinseed_yield(&self) -> (r: u32)
        ensures
            r == self.current_size * self.current_size,
    {
        let s = self.current_size as u32;
        proof {
            vstd::arithmetic::mul::lemma_mul_upper_bound(s as int, 255, s as int, 255);
        }
        s * s
    }
}

#[derive(Debug, Clone, Copy, PartialEq, Eq, Structural)]
pub struct Cactus {
    pub growth: u8,
    pub size: u8,
}

impl Cactus {
    pub const GROWTH_PER_CACTUSMEAT: u8 = 6;
    pub const MAX_CACTUSMEAT: u8 = 3;
    pub const POINTS_PER_CACTUSMEAT: u32 = 10;
    pub const MAX_GROWTH: u8 = 18;
}

#[derive(Debug, Clone, Copy, PartialEq, Eq, Structural)]
pub struct Wallbush {
    pub growth: u8,
    pub health: u8,
}

impl Wallbush {
    pub const GROWTH_TO_BE_READY: u8 = 8;
    pub const MAX_HEALTH: u8 = 42;
}

#[derive(Debug, Clone, Copy, PartialEq, Eq, Structural)]
pub struct Swapshroom {
    pub growth: u8,
    pub pair_id: u32,
    pub active: bool,
}

impl Swapshroom {
    pub const GROWTH_TO_BE_READY: u8 = 8;
}

#[derive(Debug, Clone, Copy, PartialEq, Eq, Structural)]
pub struct Sunflower {
    pub growth: u8,
    pub rank: u8,
}

impl Sunflower {
    pub const GROWTH_TO_POWER: u8 = 30;
    pub const POWER_YIELD: u32 = 1;
    pub const POINTS_PER_POWER: u32 = 1024;
}

/// The highest growth a plant of this kind can reach.
pub open spec fn max_growth(p: Plant) -> int {
    match p {
        Plant::Empty => 0,
        Plant::Wheat(_) => Wheat::GROWTH_TO_GRAINS as int,
        Plant::Bush(_) => Bush::MAX_GROWTH as int,
        Plant::Tree(_) => Tree::GROWTH_TO_WOOD as int,
        Plant::Cane(_) => Cane::GROWTH_TO_SUGAR as int,
        Plant::Pumpkin(_) => Pumpkin::MAX_GROWTH as int,
        Plant::Cactus(_) => Cactus::MAX_GROWTH as int,
        Plant::Wallbush(_) => Wallbush::GROWTH_TO_BE_READY as int,
        Plant::Swapshroom(_) => Swapshroom::GROWTH_TO_BE_READY as int,
        Plant::Sunflower(_) => Sunflower::GROWTH_TO_POWER as int,
    }
}

/// The growth of a plant; zero where nothing grows.
pub open spec fn growth_of(p: Plant) -> int {
    match p {
        Plant::Empty => 0,
        Plant::Wheat(w) => w.growth as int,
        Plant::Bush(b) => b.growth as int,
        Plant::Tree(t) => t.growth as int,
        Plant::Cane(c) => c.growth as int,
        Plant::Pumpkin(p) => p.growth as int,
        Plant::Cactus(c) => c.growth as int,
        Plant::Wallbush(w) => w.growth as int,
        Plant::Swapshroom(s) => s.growth as int,
        Plant::Sunflower(s) => s.growth as int,
    }
}

impl Plant {
    /// The plant's state is one it can reach: its growth is within its kind's
    /// cap, and its derived sizes are within theirs.
    pub open spec fn wf(self) -> bool {
        &&& growth_of(self) <= max_growth(self)
        &&& match self {
            Plant::Bush(b) => b.berries <= Bush::MAX_BERRIES,
            Plant::Pumpkin(p) => 1 <= p.max_size <= Pumpkin::LARGEST_SIZE && p.current_size
                <= Pumpkin::LARGEST_SIZE,
            Plant::Cactus(c) => c.size <= Cactus::MAX_CACTUSMEAT,
            Plant::Wallbush(w) => w.health <= Wallbush::MAX_HEALTH,
            _ => true,
        }
    }
}

/// `min(g + rate, cap)`.
pub open spec fn grown(g: u8, rate: u8, cap: u8) -> u8 {
    if g + rate >= cap {
        cap
    } else {
        (g + rate) as u8
    }
}

/// Berries carried by a bush of growth `g`.
pub open spec fn berries_at(g: u8) -> u8 {
    if g < Bush::GROWTH_TO_WOOD {
        0
    } else {
        ((g - Bush::GROWTH_TO_WOOD) as u8) / Bush::GROWTH_PER_BERRIES
    }
}

/// Meat carried by a cactus of growth `g`.
pub open spec fn cactus_size_at(g: u8) -> u8 {
    if g / Cactus::GROWTH_PER_CACTUSMEAT >= Cactus::MAX_CACTUSMEAT {
        Cactus::MAX_CACTUSMEAT
    } else {
        (g / Cactus::GROWTH_PER_CACTUSMEAT) as u8
    }
}

/// A pumpkin's growth moves by `rate` towards the target `4 * max_size`.
pub open spec fn pumpkin_growth(g: u8, rate: u8, target: u8) -> u8 {
    if target > g {
        grown(g, rate, target)
    } else if g - rate <= target {
        target
    } else {
        (g - rate) as u8
    }
}

/// One turn of growth of a plant.
/// `rate` is 2 next to water and 1 elsewhere; `tree_near` says whether a
/// neighbour is a tree; `ripe_pumpkins` counts the neighbours that are ripe
/// pumpkins.
pub open spec fn grow_spec(p: Plant, rate: u8, tree_near: bool, ripe_pumpkins: u8) -> Plant {
    match p {
        Plant::Empty => Plant::Empty,
        Plant::Wheat(w) => Plant::Wheat(Wheat { growth: grown(w.growth, rate, Wheat::GROWTH_TO_GRAINS) }),
        Plant::Bush(b) => {
            let g = grown(b.growth, rate, Bush::MAX_GROWTH);
            Plant::Bush(Bush { growth: g, berries: berries_at(g) })
        },
        Plant::Tree(t) => if tree_near {
            p
        } else {
            Plant::Tree(Tree { growth: grown(t.growth, rate, Tree::GROWTH_TO_WOOD) })
        },
        Plant::Cane(c) => Plant::Cane(Cane { growth: grown(c.growth, rate, Cane::GROWTH_TO_SUGAR) }),
        Plant::Pumpkin(k) => {
            let m = (1 + ripe_pumpkins) as u8;
            let g = pumpkin_growth(k.growth, rate, (Pumpkin::GROWTH_TO_PUMPKINSEED * m) as u8);
            Plant::Pumpkin(
                Pumpkin {
                    growth: g,
                    current_size: (g / Pumpkin::GROWTH_TO_PUMPKINSEED) as u8,
                    max_size: m,
                },
            )
        },
        Plant::Cactus(c) => {
            let g = grown(c.growth, rate, Cactus::MAX_GROWTH);
            Plant::Cactus(Cactus { growth: g, size: cactus_size_at(g) })
        },
        Plant::Wallbush(w) => Plant::Wallbush(
            Wallbush { growth: grown(w.growth, rate, Wallbush::GROWTH_TO_BE_READY), ..w },
        ),
        Plant::Swapshroom(s) => Plant::Swapshroom(
            Swapshroom { growth: grown(s.growth, rate, Swapshroom::GROWTH_TO_BE_READY), ..s },
        ),
        Plant::Sunflower(s) => Plant::Sunflower(
            Sunflower { growth: grown(s.growth, rate, Sunflower::GROWTH_TO_POWER), ..s },
        ),
    }
}

fn grow_to(g: u8, rate: u8, cap: u8) -> (r: u8)
    requires
        rate <= 2,
    ensures
        r == grown(g, rate, cap),
{
    if g as u16 + rate as u16 >= cap as u16 {
        cap
    } else {
        g + rate
    }
}

impl Plant {
    /// The plant after one turn of growth (see `grow_spec`).
    pub fn grow(&self, rate: u8, tree_near: bool, ripe_pumpkins: u8) -> (r: Plant)
        requires
            self.wf(),
            1 <= rate <= 2,
            ripe_pumpkins <= 4,
        ensures
            r == grow_spec(*self, rate, tree_near, ripe_pumpkins),
            r.wf(),
    {
        match self {
            Plant::Empty => Plant::Empty,
            Plant::Wheat(w) => Plant::Wheat(Wheat { growth: grow_to(w.growth, rate, Wheat::GROWTH_TO_GRAINS) }),
            Plant::Bush(b) => {
                let g = grow_to(b.growth, rate, Bush::MAX_GROWTH);
                let berries = if g < Bush::GROWTH_TO_WOOD {
                    0
                } else {
                    (g - Bush::GROWTH_TO_WOOD) / Bush::GROWTH_PER_BERRIES
                };
                Plant::Bush(Bush { growth: g, berries })
            },
            Plant::Tree(t) => {
                if tree_near {
                    *self
                } else {
                    Plant::Tree(Tree { growth: grow_to(t.growth, rate, Tree::GROWTH_TO_WOOD) })
                }
            },
            Plant::Cane(c) => Plant::Cane(Cane { growth: grow_to(c.growth, rate, Cane::GROWTH_TO_SUGAR) }),
            Plant::Pumpkin(k) => {
                let m: u8 = 1 + ripe_pumpkins;
                let target: u8 = Pumpkin::GROWTH_TO_PUMPKINSEED * m;
                let g: u8 = if target > k.growth {
                    grow_to(k.growth, rate, target)
                } else if k.growth - rate <= target {
                    target
                } else {
                    k.growth - rate
                };
                Plant::Pumpkin(
                    Pumpkin { growth: g, current_size: g / Pumpkin::GROWTH_TO_PUMPKINSEED, max_size: m },
                )
            },
            Plant::Cactus(c) => {
                let g = grow_to(c.growth, rate, Cactus::MAX_GROWTH);
                let size = if g / Cactus::GROWTH_PER_CACTUSMEAT >= Cactus::MAX_CACTUSMEAT {
                    Cactus::MAX_CACTUSMEAT
                } else {
                    g / Cactus::GROWTH_PER_CACTUSMEAT
                };
                Plant::Cactus(Cactus { growth: g, size })
            },
            Plant::Wallbush(w) => Plant::Wallbush(
                Wallbush { growth: grow_to(w.growth, rate, Wallbush::GROWTH_TO_BE_READY), health: w.health },
            ),
            Plant::Swapshroom(s) => Plant::Swapshroom(
                Swapshroom {
                    growth: grow_to(s.growth, rate, Swapshroom::GROWTH_TO_BE_READY),
                    pair_id: s.pair_id,
                    active: s.active,
                },
            ),
            Plant::Sunflower(s) => Plant::Sunflower(
                Sunflower { growth: grow_to(s.growth, rate, Sunflower::GROWTH_TO_POWER), rank: s.rank },
            ),
        }
    }
}

} // verus!
