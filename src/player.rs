use vstd::prelude::*;
use crate::harvest::{harvest_slot, Harvest, HARVEST_KINDS};
use crate::message::MsgToPlayer;
use crate::pos::Pos;
use crate::seed::SEED_KINDS;

verus! {

/// What every harvest count of a new player starts at.
pub const STARTING_HARVEST: u32 = 999;

/// One player of a game.
pub struct Player {
    pub player_name: String,
    pub player_id: u128,
    pub pos: Pos,
    /// Harvest counts, by harvest slot.
    pub harvests: Vec<u32>,
    /// Seed counts, by seed slot.
    pub seeds: Vec<u32>,
    pub points: u32,
    /// The pair id of the last swapshroom planted alone, waiting for its twin.
    pub next_swapshroom_pair_id: Option<u32>,
}

/// `a + b`, capped at `u32::MAX`.
pub open spec fn sat_add(a: int, b: int) -> u32 {
    if a + b > u32::MAX {
        u32::MAX
    } else {
        (a + b) as u32
    }
}

/// `a - b`, floored at zero.
pub open spec fn sat_sub(a: int, b: int) -> u32 {
    if a - b < 0 {
        0
    } else {
        (a - b) as u32
    }
}

impl Player {
    pub open spec fn wf(&self) -> bool {
        self.harvests@.len() == HARVEST_KINDS && self.seeds@.len() == SEED_KINDS
    }

    /// A player who just joined, standing at `pos`.
    pub fn new(player_name: String, player_id: u128, pos: Pos) -> (r: Self)
        ensures
            r.wf(),
            r.player_name@ == player_name@,
            r.player_id == player_id,
            r.pos == pos,
            forall|i: int| 0 <= i < HARVEST_KINDS ==> #[trigger] r.harvests@[i] == STARTING_HARVEST,
            forall|i: int| 0 <= i < SEED_KINDS ==> #[trigger] r.seeds@[i] == 0,
            r.points == 0,
            r.next_swapshroom_pair_id is None,
    {
        Player {
            player_name,
            player_id,
            pos,
            harvests: vec![STARTING_HARVEST; HARVEST_KINDS],
            seeds: vec![0u32; SEED_KINDS],
            points: 0,
            next_swapshroom_pair_id: None,
        }
    }

    /// Credits `volume` units of `harvest`, worth `points` each; both counts
    /// stop at `u32::MAX`.
    pub fn harvest(&mut self, harvest: Harvest, volume: u32, points: u32) -> (r: MsgToPlayer)
        requires
            old(self).wf(),
        ensures
            final(self).wf(),
            final(self).harvests@ == old(self).harvests@.update(
                harvest_slot(harvest),
                sat_add(old(self).harvests@[harvest_slot(harvest)] as int, volume as int),
            ),
            final(self).points == sat_add(old(self).points as int, points * volume),
            final(self).seeds@ == old(self).seeds@,
            final(self).pos == old(self).pos,
            final(self).player_id == old(self).player_id,
            final(self).next_swapshroom_pair_id == old(self).next_swapshroom_pair_id,
            r == (MsgToPlayer::Harvested { harvest, volume }),
    {
        let i = harvest.slot();
        let h = self.harvests[i].saturating_add(volume);
        self.harvests.set(i, h);
        proof {
            vstd::arithmetic::mul::lemma_mul_upper_bound(points as int, u32::MAX as int, volume as int, u32::MAX as int);
        }
        let gained: u64 = points as u64 * volume as u64;
        let total: u64 = self.points as u64 + gained;
        self.points = if total > u32::MAX as u64 {
            u32::MAX
        } else {
            total as u32
        };
        MsgToPlayer::Harvested { harvest, volume }
    }
}

} // verus!
