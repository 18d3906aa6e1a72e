//! How one player's action changes the world and the player.

use vstd::prelude::*;
use crate::cell::Cell;
use crate::ground::Ground;
use crate::harvest::{harvest_slot, Harvest};
use crate::map::{highest_rank, index_of, FarmMap, SwapPair};
use crate::message::MsgToPlayer;
use crate::plant::{
    Bush, Cactus, Cane, Plant, Pumpkin, Sunflower, Swapshroom, Tree, Wallbush, Wheat,
};
use crate::player::{sat_add, sat_sub, Player};
use crate::pos::Pos;
use crate::seed::{recipe, seed_slot, Seed};

verus! {

/// Harvesting a plant (other than an active swapshroom): the plant left
/// behind, what is gained as (harvest, volume, points per unit), and whether
/// the player is fined for a sunflower of too low a rank. A wallbush, a
/// swapshroom and an unripe sunflower stay, except at growth zero: a plant
/// harvested the turn it was planted is always removed.
pub open spec fn harvest_rule(p: Plant, max_rank: u8) -> (Plant, Option<(Harvest, u32, u32)>, bool) {
    match p {
        Plant::Empty => (Plant::Empty, None, false),
        Plant::Wheat(w) => if w.growth == Wheat::GROWTH_TO_GRAINS {
            (Plant::Empty, Some((Harvest::Grains, Wheat::GRAINS_YIELD, Wheat::POINTS_PER_GRAINS)), false)
        } else {
            (Plant::Empty, None, false)
        },
        Plant::Bush(b) => if b.berries > 0 {
            (
                Plant::Bush(Bush { growth: Bush::GROWTH_TO_WOOD, berries: 0 }),
                Some((Harvest::Berry, b.berries as u32, Bush::POINTS_PER_BERRIES)),
                false,
            )
        } else if b.growth >= Bush::GROWTH_TO_WOOD {
            (Plant::Empty, Some((Harvest::Wood, Bush::WOOD_YIELD, Bush::POINTS_PER_WOOD)), false)
        } else {
            (Plant::Empty, None, false)
        },
        Plant::Tree(t) => if t.growth == Tree::GROWTH_TO_WOOD {
            (Plant::Empty, Some((Harvest::Wood, Tree::WOOD_YIELD, Tree::POINTS_PER_WOOD)), false)
        } else {
            (Plant::Empty, None, false)
        },
        Plant::Cane(c) => if c.growth == Cane::GROWTH_TO_SUGAR {
            (Plant::Empty, Some((Harvest::Sugar, Cane::SUGAR_YIELD, Cane::POINTS_PER_SUGAR)), false)
        } else {
            (Plant::Empty, None, false)
        },
        Plant::Pumpkin(k) => if k.growth >= Pumpkin::GROWTH_TO_PUMPKINSEED {
            (
                Plant::Empty,
                Some(
                    (
                        Harvest::PumpkinSeed,
                        (k.current_size * k.current_size) as u32,
                        Pumpkin::POINTS_PER_PUMPKINSEED,
                    ),
                ),
                false,
            )
        } else {
            (Plant::Empty, None, false)
        },
        Plant::Cactus(c) => if c.growth >= Cactus::GROWTH_PER_CACTUSMEAT {
            (
                Plant::Empty,
                Some((Harvest::CactusMeat, c.size as u32, Cactus::POINTS_PER_CACTUSMEAT)),
                false,
            )
        } else {
            (Plant::Empty, None, false)
        },
        Plant::Wallbush(w) => if w.growth == 0 {
            (Plant::Empty, None, false)
        } else {
            (p, None, false)
        },
        Plant::Swapshroom(s) => if s.growth == 0 {
            (Plant::Empty, None, false)
        } else {
            (p, None, false)
        },
        Plant::Sunflower(s) => if s.growth == Sunflower::GROWTH_TO_POWER {
            if s.rank == max_rank {
                (Plant::Empty, Some((Harvest::Power, Sunflower::POWER_YIELD, Sunflower::POINTS_PER_POWER)), false)
            } else {
                (Plant::Empty, None, true)
            }
        } else if s.growth == 0 {
            (Plant::Empty, None, false)
        } else {
            (p, None, false)
        },
    }
}

/// The fine for harvesting a sunflower that does not hold the highest rank.
pub open spec fn sunflower_fine() -> int {
    Sunflower::POINTS_PER_POWER * Sunflower::POWER_YIELD
}

/// The first entry from `j` on that registers pair `id`.
pub open spec fn first_pair_from(pairs: Seq<SwapPair>, id: u32, j: int) -> Option<int>
    decreases pairs.len() - j,
{
    if j < 0 || j >= pairs.len() {
        None
    } else if pairs[j].pair_id == id {
        Some(j)
    } else {
        first_pair_from(pairs, id, j + 1)
    }
}

/// The entry `first_pair_from` finds lies in range and registers `id`.
pub proof fn lemma_first_pair_in_range(pairs: Seq<SwapPair>, id: u32, j: int)
    requires
        0 <= j,
    ensures
        first_pair_from(pairs, id, j) matches Some(k) ==> j <= k < pairs.len() && pairs[k].pair_id == id,
    decreases pairs.len() - j,
{
    if j < pairs.len() && pairs[j].pair_id != id {
        lemma_first_pair_in_range(pairs, id, j + 1);
    }
}

/// The registered pair that harvesting cell `c` would trigger, if any: `c`
/// holds an active swapshroom whose pair is registered with both ends on a map
/// of side `n`.
pub open spec fn triggered_pair(c: Cell, pairs: Seq<SwapPair>, n: int) -> Option<int> {
    match c.plant {
        Plant::Swapshroom(s) => if s.active {
            match first_pair_from(pairs, s.pair_id, 0) {
                Some(k) => if pairs[k].first.in_map(n) && pairs[k].second.in_map(n) {
                    Some(k)
                } else {
                    None
                },
                None => None,
            }
        } else {
            None
        },
        _ => None,
    }
}

/// The exec form of `harvest_rule`.
pub fn harvest_plant(p: Plant, max_rank: u8) -> (r: (Plant, Option<(Harvest, u32, u32)>, bool))
    requires
        p.wf(),
    ensures
        r == harvest_rule(p, max_rank),
        r.0.wf(),
{
    match p {
        Plant::Empty => (Plant::Empty, None, false),
        Plant::Wheat(w) => {
            if w.growth == Wheat::GROWTH_TO_GRAINS {
                (Plant::Empty, Some((Harvest::Grains, Wheat::GRAINS_YIELD, Wheat::POINTS_PER_GRAINS)), false)
            } else {
                (Plant::Empty, None, false)
            }
        },
        Plant::Bush(b) => {
            if b.berries > 0 {
                (
                    Plant::Bush(Bush { growth: Bush::GROWTH_TO_WOOD, berries: 0 }),
                    Some((Harvest::Berry, b.berries as u32, Bush::POINTS_PER_BERRIES)),
                    false,
                )
            } else if b.growth >= Bush::GROWTH_TO_WOOD {
                (Plant::Empty, Some((Harvest::Wood, Bush::WOOD_YIELD, Bush::POINTS_PER_WOOD)), false)
            } else {
                (Plant::Empty, None, false)
            }
        },
        Plant::Tree(t) => {
            if t.growth == Tree::GROWTH_TO_WOOD {
                (Plant::Empty, Some((Harvest::Wood, Tree::WOOD_YIELD, Tree::POINTS_PER_WOOD)), false)
            } else {
                (Plant::Empty, None, false)
            }
        },
        Plant::Cane(c) => {
            if c.growth == Cane::GROWTH_TO_SUGAR {
                (Plant::Empty, Some((Harvest::Sugar, Cane::SUGAR_YIELD, Cane::POINTS_PER_SUGAR)), false)
            } else {
                (Plant::Empty, None, false)
            }
        },
        Plant::Pumpkin(k) => {
            if k.growth >= Pumpkin::GROWTH_TO_PUMPKINSEED {
                (
                    Plant::Empty,
                    Some((Harvest::PumpkinSeed, k.pumpkinseed_yield(), Pumpkin::POINTS_PER_PUMPKINSEED)),
                    false,
                )
            } else {
                (Plant::Empty, None, false)
            }
        },
        Plant::Cactus(c) => {
            if c.growth >= Cactus::GROWTH_PER_CACTUSMEAT {
                (
                    Plant::Empty,
                    Some((Harvest::CactusMeat, c.size as u32, Cactus::POINTS_PER_CACTUSMEAT)),
                    false,
                )
            } else {
                (Plant::Empty, None, false)
            }
        },
        Plant::Wallbush(w) => {
            if w.growth == 0 {
                (Plant::Empty, None, false)
            } else {
                (p, None, false)
            }
        },
        Plant::Swapshroom(s) => {
            if s.growth == 0 {
                (Plant::Empty, None, false)
            } else {
                (p, None, false)
            }
        },
        Plant::Sunflower(s) => {
            if s.growth == Sunflower::GROWTH_TO_POWER {
                if s.rank == max_rank {
                    (
                        Plant::Empty,
                        Some((Harvest::Power, Sunflower::POWER_YIELD, Sunflower::POINTS_PER_POWER)),
                        false,
                    )
                } else {
                    (Plant::Empty, None, true)
                }
            } else if s.growth == 0 {
                (Plant::Empty, None, false)
            } else {
                (p, None, false)
            }
        },
    }
}

/// The first entry of `pairs` that registers pair `id`.
fn find_pair(pairs: &Vec<SwapPair>, id: u32) -> (r: Option<usize>)
    ensures
        match r {
            Some(k) => k < pairs@.len() && first_pair_from(pairs@, id, 0) == Some(k as int),
            None => first_pair_from(pairs@, id, 0) is None,
        },
{
    let mut j: usize = 0;
    while j < pairs.len()
        invariant
            first_pair_from(pairs@, id, 0) == first_pair_from(pairs@, id, j as int),
        decreases pairs@.len() - j,
    {
        if pairs[j].pair_id == id {
            return Some(j);
        }
        j = j + 1;
    }
    None
}

/// What harvesting does to the world (`cells`, on a map of side `n`), the
/// harvesting player `p0`, the registry `act0` and the queued swaps `sw0`,
/// with `r` the answer (see `action_harvest`).
pub open spec fn harvest_post(
    cells: Seq<Cell>,
    n: int,
    p0: Player,
    act0: Seq<SwapPair>,
    sw0: Seq<(Pos, Pos)>,
    cells1: Seq<Cell>,
    p1: Player,
    act1: Seq<SwapPair>,
    sw1: Seq<(Pos, Pos)>,
    r: Option<MsgToPlayer>,
) -> bool {
    let c = cells[index_of(p0.pos, n)];
    match triggered_pair(c, act0, n) {
        Some(k) => {
            let sp = act0[k];
            &&& r is None
            &&& act1 == act0.remove(k)
            &&& sw1 == sw0.push((sp.first, sp.second))
            &&& cells1 == cells.update(
                index_of(sp.first, n),
                Cell { ground: cells[index_of(sp.first, n)].ground, plant: Plant::Empty },
            ).update(
                index_of(sp.second, n),
                Cell { ground: cells[index_of(sp.second, n)].ground, plant: Plant::Empty },
            )
            &&& p1 == p0
        },
        None => {
            let (left, gain, fined) = harvest_rule(c.plant, highest_rank(cells));
            &&& act1 == act0
            &&& sw1 == sw0
            &&& cells1 == cells.update(
                index_of(p0.pos, n),
                Cell { ground: c.ground, plant: left },
            )
            &&& p1.pos == p0.pos
            &&& p1.player_id == p0.player_id
            &&& p1.seeds@ == p0.seeds@
            &&& p1.next_swapshroom_pair_id == p0.next_swapshroom_pair_id
            &&& match gain {
                Some((h, v, pts)) => {
                    &&& r == Some(MsgToPlayer::Harvested { harvest: h, volume: v })
                    &&& p1.harvests@ == p0.harvests@.update(
                        harvest_slot(h),
                        sat_add(p0.harvests@[harvest_slot(h)] as int, v as int),
                    )
                    &&& p1.points == sat_add(p0.points as int, pts * v)
                },
                None => {
                    &&& r == Some(MsgToPlayer::NoHarvest)
                    &&& p1.harvests@ == p0.harvests@
                    &&& p1.points == if fined {
                        sat_sub(p0.points as int, sunflower_fine())
                    } else {
                        p0.points
                    }
                },
            }
        },
    }
}

/// The player harvests the cell they stand on.
///
/// An active swapshroom whose pair is registered sets off the swap: the pair
/// leaves the registry, both of its cells lose their plants (their grounds
/// stay), the two positions are queued in `swaps`, and no answer is given
/// here (`None`): the players on them hear of it when the swap happens.
/// Otherwise the plant turns into what `harvest_rule` says, the player gains
/// its yield or pays the sunflower fine, and the answer is `Harvested` or
/// `NoHarvest`.
pub fn action_harvest(
    map: &mut FarmMap,
    player: &mut Player,
    active: &mut Vec<SwapPair>,
    swaps: &mut Vec<(Pos, Pos)>,
) -> (r: Option<MsgToPlayer>)
    requires
        old(map).wf(),
        old(player).wf(),
        old(map).contains(old(player).pos),
    ensures
        final(map).wf(),
        final(map).size == old(map).size,
        final(player).wf(),
        harvest_post(
            old(map).cells@,
            old(map).size as int,
            *old(player),
            old(active)@,
            old(swaps)@,
            final(map).cells@,
            *final(player),
            final(active)@,
            final(swaps)@,
            r,
        ),
{
    let pos = player.pos;
    let cell = map.get_cell(&pos);
    if let Plant::Swapshroom(s) = cell.plant {
        if s.active {
            if let Some(k) = find_pair(active, s.pair_id) {
                let sp = active[k];
                if map.contains_pos(&sp.first) && map.contains_pos(&sp.second) {
                    active.remove(k);
                    let c1 = map.get_cell(&sp.first);
                    let c2 = map.get_cell(&sp.second);
                    map.set_cell(&sp.first, Cell { ground: c1.ground, plant: Plant::Empty });
                    map.set_cell(&sp.second, Cell { ground: c2.ground, plant: Plant::Empty });
                    swaps.push((sp.first, sp.second));
                    return None;
                }
            }
        }
    }
    let max_rank = map.get_highest_sunflower_rank();
    let (left, gain, fined) = harvest_plant(cell.plant, max_rank);
    map.set_cell(&pos, Cell { ground: cell.ground, plant: left });
    match gain {
        Some((h, v, pts)) => Some(player.harvest(h, v, pts)),
        None => {
            if fined {
                player.points = player.points.saturating_sub(
                    Sunflower::POINTS_PER_POWER * Sunflower::POWER_YIELD,
                );
            }
            Some(MsgToPlayer::NoHarvest)
        },
    }
}

/// Whether a seed takes root on a ground.
pub open spec fn ground_accepts(seed: Seed, g: Ground) -> bool {
    match seed {
        Seed::Wheat => g == Ground::Dirt || g == Ground::Tiled,
        Seed::Bush | Seed::Pumpkin | Seed::Wallbush => g == Ground::Tiled,
        Seed::Tree => g == Ground::Dirt,
        Seed::Cane | Seed::Cactus => g == Ground::Sand,
        Seed::Swapshroom => true,
        Seed::Sunflower => g == Ground::Stone,
    }
}

/// The plant a seed grows into on the cell where it is planted; for a
/// swapshroom the pair id is chosen apart, and sunflowers take their ranks
/// apart.
pub open spec fn sprout(seed: Seed) -> Plant {
    match seed {
        Seed::Wheat => Plant::Wheat(Wheat { growth: 0 }),
        Seed::Bush => Plant::Bush(Bush { growth: 0, berries: 0 }),
        Seed::Tree => Plant::Tree(Tree { growth: 0 }),
        Seed::Cane => Plant::Cane(Cane { growth: 0 }),
        Seed::Pumpkin => Plant::Pumpkin(Pumpkin { growth: 0, current_size: 1, max_size: 1 }),
        Seed::Cactus => Plant::Cactus(Cactus { growth: 0, size: 0 }),
        Seed::Wallbush => Plant::Wallbush(Wallbush { growth: 0, health: Wallbush::MAX_HEALTH }),
        Seed::Swapshroom => Plant::Swapshroom(Swapshroom { growth: 0, pair_id: 0, active: false }),
        Seed::Sunflower => Plant::Sunflower(Sunflower { growth: 0, rank: 0 }),
    }
}

/// Planting a sunflower: every stone cell that holds no swapshroom gets a new
/// sunflower, the one on cell `i` of rank `ranks[i]`.
pub open spec fn sunflower_field(cells: Seq<Cell>, ranks: Seq<u8>) -> Seq<Cell> {
    Seq::new(
        cells.len(),
        |i: int|
            if cells[i].ground == Ground::Stone && !(cells[i].plant is Swapshroom) {
                Cell { ground: Ground::Stone, plant: Plant::Sunflower(Sunflower { growth: 0, rank: ranks[i] }) }
            } else {
                cells[i]
            },
    )
}

fn sprout_of(seed: Seed) -> (r: Plant)
    ensures
        r == sprout(seed),
        r.wf(),
{
    match seed {
        Seed::Wheat => Plant::Wheat(Wheat { growth: 0 }),
        Seed::Bush => Plant::Bush(Bush { growth: 0, berries: 0 }),
        Seed::Tree => Plant::Tree(Tree { growth: 0 }),
        Seed::Cane => Plant::Cane(Cane { growth: 0 }),
        Seed::Pumpkin => Plant::Pumpkin(Pumpkin { growth: 0, current_size: 1, max_size: 1 }),
        Seed::Cactus => Plant::Cactus(Cactus { growth: 0, size: 0 }),
        Seed::Wallbush => Plant::Wallbush(Wallbush { growth: 0, health: Wallbush::MAX_HEALTH }),
        Seed::Swapshroom => Plant::Swapshroom(Swapshroom { growth: 0, pair_id: 0, active: false }),
        Seed::Sunflower => Plant::Sunflower(Sunflower { growth: 0, rank: 0 }),
    }
}

fn accepts(seed: Seed, g: Ground) -> (r: bool)
    ensures
        r == ground_accepts(seed, g),
{
    match seed {
        Seed::Wheat => g == Ground::Dirt || g == Ground::Tiled,
        Seed::Bush | Seed::Pumpkin | Seed::Wallbush => g == Ground::Tiled,
        Seed::Tree => g == Ground::Dirt,
        Seed::Cane | Seed::Cactus => g == Ground::Sand,
        Seed::Swapshroom => true,
        Seed::Sunflower => g == Ground::Stone,
    }
}

/// Sows sunflowers on the stones (see `sunflower_field`).
fn sow_sunflowers(map: &mut FarmMap, ranks: &Vec<u8>)
    requires
        old(map).wf(),
        ranks@.len() == old(map).cells@.len(),
    ensures
        final(map).wf(),
        final(map).size == old(map).size,
        final(map).cells@ == sunflower_field(old(map).cells@, ranks@),
{
    let ghost orig = map.cells@;
    let mut i: usize = 0;
    while i < map.cells.len()
        invariant
            map.wf(),
            map.size == old(map).size,
            orig == old(map).cells@,
            ranks@.len() == orig.len(),
            map.cells@.len() == orig.len(),
            i <= orig.len(),
            forall|k: int| 0 <= k < i ==> #[trigger] map.cells@[k] == sunflower_field(orig, ranks@)[k],
            forall|k: int| i <= k < orig.len() ==> #[trigger] map.cells@[k] == orig[k],
        decreases orig.len() - i,
    {
        let c = map.cells[i];
        let shroom = match c.plant {
            Plant::Swapshroom(_) => true,
            _ => false,
        };
        if c.ground == Ground::Stone && !shroom {
            map.cells.set(
                i,
                Cell { ground: Ground::Stone, plant: Plant::Sunflower(Sunflower { growth: 0, rank: ranks[i] }) },
            );
        }
        i = i + 1;
    }
    proof {
        assert(map.cells@ =~= sunflower_field(orig, ranks@));
    }
}

/// What planting `seed` does to the world (`cells`, on a map of side `n`)
/// and to the planting player `p0`, with `fresh_pair_id` and `ranks` the
/// random draws and `r` the answer (see `action_plant`).
pub open spec fn plant_post(
    cells: Seq<Cell>,
    n: int,
    p0: Player,
    seed: Seed,
    fresh_pair_id: u32,
    ranks: Seq<u8>,
    cells1: Seq<Cell>,
    p1: Player,
    r: MsgToPlayer,
) -> bool {
    &&& p1.pos == p0.pos
    &&& p1.player_id == p0.player_id
    &&& p1.harvests@ == p0.harvests@
    &&& p1.points == p0.points
    &&& {
        let c = cells[index_of(p0.pos, n)];
        let slot = seed_slot(seed);
        let have = p0.seeds@[slot];
        if have == 0 || c.plant is Wallbush || c.plant is Swapshroom || !ground_accepts(seed, c.ground) {
            &&& r == (if have == 0 {
                MsgToPlayer::NotEnoughSeed
            } else if c.plant is Wallbush || c.plant is Swapshroom {
                MsgToPlayer::CannotPlantOver
            } else {
                MsgToPlayer::WrongGroundType
            })
            &&& cells1 == cells
            &&& p1.seeds@ == p0.seeds@
            &&& p1.next_swapshroom_pair_id == p0.next_swapshroom_pair_id
        } else {
            &&& r == MsgToPlayer::Planted
            &&& p1.seeds@ == p0.seeds@.update(slot, (have - 1) as u32)
            &&& match seed {
                Seed::Sunflower => {
                    &&& cells1 == sunflower_field(cells, ranks)
                    &&& p1.next_swapshroom_pair_id == p0.next_swapshroom_pair_id
                },
                Seed::Swapshroom => {
                    let id = match p0.next_swapshroom_pair_id {
                        Some(w) => w,
                        None => fresh_pair_id,
                    };
                    &&& cells1 == cells.update(
                        index_of(p0.pos, n),
                        Cell {
                            ground: c.ground,
                            plant: Plant::Swapshroom(Swapshroom { growth: 0, pair_id: id, active: false }),
                        },
                    )
                    &&& p1.next_swapshroom_pair_id == match p0.next_swapshroom_pair_id {
                        Some(_) => None,
                        None => Some(fresh_pair_id),
                    }
                },
                _ => {
                    &&& cells1 == cells.update(
                        index_of(p0.pos, n),
                        Cell { ground: c.ground, plant: sprout(seed) },
                    )
                    &&& p1.next_swapshroom_pair_id == p0.next_swapshroom_pair_id
                },
            }
        }
    }
}

/// The player plants `seed` on the cell they stand on.
///
/// Nothing changes unless the player holds such a seed (`NotEnoughSeed`),
/// the cell holds no wallbush or swapshroom (`CannotPlantOver`) and the
/// ground suits the seed (`WrongGroundType`). Then one seed is spent and the
/// answer is `Planted`: a sunflower seed sows every free stone of the map
/// with ranks from `ranks`, one per cell; a swapshroom takes the player's
/// waiting pair id, or else `fresh_pair_id`, which then waits for the twin;
/// any other seed sprouts on the cell.
pub fn action_plant(
    map: &mut FarmMap,
    player: &mut Player,
    seed: Seed,
    fresh_pair_id: u32,
    ranks: &Vec<u8>,
) -> (r: MsgToPlayer)
    requires
        old(map).wf(),
        old(player).wf(),
        old(map).contains(old(player).pos),
        seed == Seed::Sunflower ==> ranks@.len() == old(map).cells@.len(),
    ensures
        final(map).wf(),
        final(map).size == old(map).size,
        final(player).wf(),
        plant_post(
            old(map).cells@,
            old(map).size as int,
            *old(player),
            seed,
            fresh_pair_id,
            ranks@,
            final(map).cells@,
            *final(player),
            r,
        ),
{
    let pos = player.pos;
    let slot = seed.slot();
    let have = player.seeds[slot];
    if have == 0 {
        return MsgToPlayer::NotEnoughSeed;
    }
    let cell = map.get_cell(&pos);
    match cell.plant {
        Plant::Wallbush(_) | Plant::Swapshroom(_) => {
            return MsgToPlayer::CannotPlantOver;
        },
        _ => {},
    }
    if !accepts(seed, cell.ground) {
        return MsgToPlayer::WrongGroundType;
    }
    player.seeds.set(slot, have - 1);
    match seed {
        Seed::Sunflower => {
            sow_sunflowers(map, ranks);
        },
        Seed::Swapshroom => {
            let pair_id = match player.next_swapshroom_pair_id {
                Some(id) => {
                    player.next_swapshroom_pair_id = None;
                    id
                },
                None => {
                    player.next_swapshroom_pair_id = Some(fresh_pair_id);
                    fresh_pair_id
                },
            };
            map.set_cell(
                &pos,
                Cell {
                    ground: cell.ground,
                    plant: Plant::Swapshroom(Swapshroom { growth: 0, pair_id, active: false }),
                },
            );
        },
        _ => {
            let plant = sprout_of(seed);
            map.set_cell(&pos, Cell { ground: cell.ground, plant });
        },
    }
    MsgToPlayer::Planted
}

/// Every harvest of `price` is on hand `volume` times over.
pub open spec fn affordable(h: Seq<u32>, price: Seq<(Harvest, u32)>, volume: int) -> bool {
    forall|k: int| 0 <= k < price.len() ==> h[harvest_slot(#[trigger] price[k].0)] >= price[k].1 * volume
}

/// No harvest appears twice in `price`.
pub open spec fn distinct_harvests(price: Seq<(Harvest, u32)>) -> bool {
    forall|k: int, l: int| 0 <= k < l < price.len() ==> #[trigger] price[k].0 != #[trigger] price[l].0
}

/// The harvest counts `h` after paying `price` `volume` times over.
pub open spec fn pay(h: Seq<u32>, price: Seq<(Harvest, u32)>, volume: int) -> Seq<u32>
    decreases price.len(),
{
    if price.len() == 0 {
        h
    } else {
        let i = harvest_slot(price[0].0);
        pay(h.update(i, (h[i] - price[0].1 * volume) as u32), price.drop_first(), volume)
    }
}

/// A trade on harvest counts `h` and seed counts `s`: the new counts and the
/// answer. A volume of zero, or a seed that cannot be bought, is invalid; the
/// whole price must be on hand; then it is paid and `volume` seeds are
/// credited, their count stopping at `u32::MAX`.
pub open spec fn trade_spec(h: Seq<u32>, s: Seq<u32>, seed: Seed, volume: u32) -> (
    Seq<u32>,
    Seq<u32>,
    MsgToPlayer,
) {
    let price = recipe(seed);
    if volume == 0 || price.len() == 0 {
        (h, s, MsgToPlayer::InvalidTrade)
    } else if !affordable(h, price, volume as int) {
        (h, s, MsgToPlayer::NotEnoughHarvest)
    } else {
        (
            pay(h, price, volume as int),
            s.update(seed_slot(seed), sat_add(s[seed_slot(seed)] as int, volume as int)),
            MsgToPlayer::Traded,
        )
    }
}

/// Every seed's price lists each harvest once.
pub proof fn lemma_recipes_distinct(seed: Seed)
    ensures
        distinct_harvests(recipe(seed)),
        recipe(seed).len() <= 2,
{
}

/// Pays for `volume` seeds of `seed` at `trade`, its price, if the player can
/// afford all of it; answers `Traded` or `NotEnoughHarvest`.
pub fn action_trade_helper(player: &mut Player, volume: u32, seed: Seed, trade: Vec<(Harvest, u32)>) -> (r:
    MsgToPlayer)
    requires
        old(player).wf(),
        volume > 0,
        trade@ == recipe(seed),
        trade@.len() > 0,
    ensures
        final(player).wf(),
        (final(player).harvests@, final(player).seeds@, r) == trade_spec(
            old(player).harvests@,
            old(player).seeds@,
            seed,
            volume,
        ),
        final(player).pos == old(player).pos,
        final(player).player_id == old(player).player_id,
        final(player).points == old(player).points,
        final(player).next_swapshroom_pair_id == old(player).next_swapshroom_pair_id,
{
    proof {
        lemma_recipes_distinct(seed);
    }
    let mut ok = true;
    let mut k: usize = 0;
    while k < trade.len()
        invariant
            player.wf(),
            k <= trade@.len(),
            ok == affordable(player.harvests@, trade@.subrange(0, k as int), volume as int),
        decreases trade@.len() - k,
    {
        let (h, cost) = trade[k];
        proof {
            vstd::arithmetic::mul::lemma_mul_upper_bound(cost as int, u32::MAX as int, volume as int, u32::MAX as int);
        }
        let need: u64 = cost as u64 * volume as u64;
        if (player.harvests[h.slot()] as u64) < need {
            ok = false;
        }
        proof {
            let sub = trade@.subrange(0, k + 1);
            if ok {
                assert forall|j: int| 0 <= j < sub.len() implies player.harvests@[harvest_slot(
                    #[trigger] sub[j].0,
                )] >= sub[j].1 * volume by {
                    if j < k {
                        assert(sub[j] == trade@.subrange(0, k as int)[j]);
                    }
                }
            } else {
                if !affordable(player.harvests@, trade@.subrange(0, k as int), volume as int) {
                    let j = choose|j: int|
                        0 <= j < k && !(player.harvests@[harvest_slot(
                            #[trigger] trade@.subrange(0, k as int)[j].0,
                        )] >= trade@.subrange(0, k as int)[j].1 * volume);
                    assert(sub[j] == trade@.subrange(0, k as int)[j]);
                } else {
                    assert(sub[k as int] == trade@[k as int]);
                }
            }
        }
        k = k + 1;
    }
    proof {
        assert(trade@.subrange(0, trade@.len() as int) =~= trade@);
    }
    if !ok {
        return MsgToPlayer::NotEnoughHarvest;
    }
    let ghost h0 = player.harvests@;
    let mut k: usize = 0;
    while k < trade.len()
        invariant
            player.wf(),
            k <= trade@.len(),
            trade@ == recipe(seed),
            distinct_harvests(trade@),
            affordable(h0, trade@, volume as int),
            pay(h0, trade@, volume as int) == pay(player.harvests@, trade@.subrange(k as int, trade@.len() as int), volume as int),
            forall|j: int| k <= j < trade@.len() ==> player.harvests@[harvest_slot(#[trigger] trade@[j].0)] == h0[harvest_slot(trade@[j].0)],
            player.seeds@ == old(player).seeds@,
            player.pos == old(player).pos,
            player.player_id == old(player).player_id,
            player.points == old(player).points,
            player.next_swapshroom_pair_id == old(player).next_swapshroom_pair_id,
        decreases trade@.len() - k,
    {
        let (h, cost) = trade[k];
        let i = h.slot();
        let have = player.harvests[i];
        proof {
            assert(h0[harvest_slot(trade@[k as int].0)] >= trade@[k as int].1 * volume);
            vstd::arithmetic::mul::lemma_mul_upper_bound(cost as int, u32::MAX as int, volume as int, u32::MAX as int);
        }
        let need: u64 = cost as u64 * volume as u64;
        let ghost before = player.harvests@;
        player.harvests.set(i, (have as u64 - need) as u32);
        proof {
            let rest = trade@.subrange(k as int, trade@.len() as int);
            assert(rest.drop_first() =~= trade@.subrange(k + 1, trade@.len() as int));
            assert(rest[0] == trade@[k as int]);
            assert forall|j: int| k + 1 <= j < trade@.len() implies player.harvests@[harvest_slot(
                #[trigger] trade@[j].0,
            )] == h0[harvest_slot(trade@[j].0)] by {
                assert(trade@[k as int].0 != trade@[j].0);
                assert(harvest_slot(trade@[k as int].0) != harvest_slot(trade@[j].0));
            }
        }
        k = k + 1;
    }
    proof {
        assert(trade@.subrange(k as int, trade@.len() as int) =~= seq![]);
    }
    let slot = seed.slot();
    let s = player.seeds[slot].saturating_add(volume);
    player.seeds.set(slot, s);
    MsgToPlayer::Traded
}

/// What a trade does to the trading player `p0`, with `r` the answer (see
/// `trade_spec`).
pub open spec fn trade_post(p0: Player, seed: Seed, volume: u32, p1: Player, r: MsgToPlayer) -> bool {
    &&& (p1.harvests@, p1.seeds@, r) == trade_spec(p0.harvests@, p0.seeds@, seed, volume)
    &&& p1.pos == p0.pos
    &&& p1.player_id == p0.player_id
    &&& p1.points == p0.points
    &&& p1.next_swapshroom_pair_id == p0.next_swapshroom_pair_id
}

/// The player buys `volume` seeds of `seed` (see `trade_spec`).
pub fn action_trade(player: &mut Player, seed: Seed, volume: u32) -> (r: MsgToPlayer)
    requires
        old(player).wf(),
    ensures
        final(player).wf(),
        trade_post(*old(player), seed, volume, *final(player), r),
{
    if volume == 0 {
        return MsgToPlayer::InvalidTrade;
    }
    let trade = seed.recipe();
    if trade.len() == 0 {
        return MsgToPlayer::InvalidTrade;
    }
    action_trade_helper(player, volume, seed, trade)
}

/// Tilling a cell: dirt becomes tiles and tiles dirt; a swapshroom stays,
/// any other plant is cleared. Other grounds cannot be tilled (`None`).
pub open spec fn till_spec(c: Cell) -> Option<Cell> {
    let kept = if c.plant is Swapshroom {
        c.plant
    } else {
        Plant::Empty
    };
    match c.ground {
        Ground::Dirt => Some(Cell { ground: Ground::Tiled, plant: kept }),
        Ground::Tiled => Some(Cell { ground: Ground::Dirt, plant: kept }),
        _ => None,
    }
}

/// What tilling the cell at `pos` does to the world (`cells`, on a map of
/// side `n`), with `r` the answer (see `till_spec`).
pub open spec fn till_post(cells: Seq<Cell>, n: int, pos: Pos, cells1: Seq<Cell>, r: MsgToPlayer) -> bool {
    match till_spec(cells[index_of(pos, n)]) {
        Some(c) => r == MsgToPlayer::Tilled && cells1 == cells.update(index_of(pos, n), c),
        None => r == MsgToPlayer::WrongGroundType && cells1 == cells,
    }
}

/// The player tills the cell they stand on (see `till_spec`); answers
/// `Tilled`, or `WrongGroundType` with nothing changed.
pub fn action_till(map: &mut FarmMap, player: &Player) -> (r: MsgToPlayer)
    requires
        old(map).wf(),
        old(map).contains(player.pos),
    ensures
        final(map).wf(),
        final(map).size == old(map).size,
        till_post(old(map).cells@, old(map).size as int, player.pos, final(map).cells@, r),
{
    let cell = map.get_cell(&player.pos);
    let kept = match cell.plant {
        Plant::Swapshroom(s) => Plant::Swapshroom(s),
        _ => Plant::Empty,
    };
    match cell.ground {
        Ground::Dirt => {
            map.set_cell(&player.pos, Cell { ground: Ground::Tiled, plant: kept });
            MsgToPlayer::Tilled
        },
        Ground::Tiled => {
            map.set_cell(&player.pos, Cell { ground: Ground::Dirt, plant: kept });
            MsgToPlayer::Tilled
        },
        _ => MsgToPlayer::WrongGroundType,
    }
}

} // verus!
