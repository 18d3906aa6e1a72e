//! One game: players join until the game is full, then turns are resolved
//! one after another. The game decides; the caller carries the messages and
//! says when a turn's time is up.

use vstd::prelude::*;
use rand::rngs::SmallRng;
use crate::actions::{
    action_harvest, action_plant, action_till, action_trade, harvest_post, plant_post, till_post, trade_post,
    triggered_pair,
};
use crate::cell::Cell;
use crate::chance::{draw_pair_id, draw_rank, rng_from_seed};
use crate::ground::Ground;
use crate::map::{advanced, bag, distinct_pairs, index_of, pos_of, FarmMap, SwapPair, MAX_MAP_SIZE};
use crate::message::{GameSettings, MsgToPlayer, MsgToPlayerWithGameContent, Outbound, Outgoing, Recipient};
use crate::moves::{action_move_execution, all_on_map, move_outcome, moved_pos, positions, worn_cells};
use crate::harvest::HARVEST_KINDS;
use crate::player::{Player, STARTING_HARVEST};
use crate::pos::{Direction, Pos};
use crate::seed::{Seed, SEED_KINDS};

verus! {

/// What a player does in a turn.
#[derive(Debug, Clone, Copy, PartialEq, Eq, Structural)]
pub enum Action {
    Idle,
    Move { direction: Direction },
    Harvest,
    Plant { seed: Seed },
    Trade { seed: Seed, volume: u32 },
    Till,
}

/// One game and its world.
pub struct Game {
    pub game_name: String,
    pub game_settings: GameSettings,
    pub turns: u32,
    /// Whether every player has joined and turns are being played.
    pub running: bool,
    pub players: Vec<Player>,
    pub map: FarmMap,
    pub active_swapshrooms: Vec<SwapPair>,
    /// The actions handed in this turn, at most one per player.
    pub pending: Vec<(u128, Action)>,
    /// The generator behind every random draw of this game.
    pub rng: SmallRng,
}

/// Some player has id `id`.
pub open spec fn has_player(players: Seq<Player>, id: u128) -> bool {
    exists|i: int| 0 <= i < players.len() && (#[trigger] players[i]).player_id == id
}

/// Some player stands at `p`.
pub open spec fn occupied(players: Seq<Player>, p: Pos) -> bool {
    exists|i: int| 0 <= i < players.len() && (#[trigger] players[i]).pos == p
}

/// The first stone, row by row from index `c` on, that no player stands on.
pub open spec fn first_free_stone(cells: Seq<Cell>, n: int, players: Seq<Player>, c: int) -> Option<Pos>
    decreases cells.len() - c,
{
    if c < 0 || c >= cells.len() {
        None
    } else if cells[c].ground == Ground::Stone && !occupied(players, pos_of(c, n)) {
        Some(pos_of(c, n))
    } else {
        first_free_stone(cells, n, players, c + 1)
    }
}

/// The first entry from `k` on that holds an action of player `id`.
pub open spec fn pending_index(pending: Seq<(u128, Action)>, id: u128, k: int) -> Option<int>
    decreases pending.len() - k,
{
    if k < 0 || k >= pending.len() {
        None
    } else if pending[k].0 == id {
        Some(k)
    } else {
        pending_index(pending, id, k + 1)
    }
}

/// The action pending for player `id`, if any.
pub open spec fn pending_of(pending: Seq<(u128, Action)>, id: u128) -> Option<Action> {
    match pending_index(pending, id, 0) {
        Some(k) => Some(pending[k].1),
        None => None,
    }
}

/// Both ends of every queued swap lie on a map of side `n`.
pub open spec fn swaps_on_map(swaps: Seq<(Pos, Pos)>, n: int) -> bool {
    forall|k: int| 0 <= k < swaps.len() ==> (#[trigger] swaps[k]).0.in_map(n) && swaps[k].1.in_map(n)
}

/// What the resolver owes player `id` for the turn: one envelope for any
/// action, but none when a harvest set off a swap (the swap answers it).
pub open spec fn answered(out: Seq<Outbound>, a: Option<Action>, id: u128) -> bool {
    match a {
        None => envelopes_for(out, id) == 0,
        Some(Action::Harvest) => envelopes_for(out, id) <= 1,
        Some(_) => envelopes_for(out, id) == 1,
    }
}

proof fn lemma_envelopes_push(out: Seq<Outbound>, o: Outbound, id: u128)
    ensures
        envelopes_for(out.push(o), id) == envelopes_for(out, id) + if o.to == Recipient::Player(id)
            && o.msg is Envelope {
            1nat
        } else {
            0nat
        },
{
    assert(out.push(o).drop_last() =~= out);
}

/// The counts of `v`, copied.
fn copy_counts(v: &Vec<u32>) -> (r: Vec<u32>)
    ensures
        r@ == v@,
{
    let mut r: Vec<u32> = Vec::new();
    let mut i: usize = 0;
    while i < v.len()
        invariant
            i <= v@.len(),
            r@ =~= v@.subrange(0, i as int),
        decreases v@.len() - i,
    {
        r.push(v[i]);
        i = i + 1;
    }
    r
}

/// The answer `result` wrapped with what `player` now sees.
pub fn msg_to_player_with_game_content(map: &FarmMap, player: &Player, result: MsgToPlayer) -> (r: Outgoing)
    requires
        map.wf(),
        map.contains(player.pos),
    ensures
        r matches Outgoing::Envelope(e) && e.result == result && e.cell == map.at(player.pos) && e.harvests@
            == player.harvests@ && e.seeds@ == player.seeds@ && e.points == player.points,
{
    Outgoing::Envelope(
        MsgToPlayerWithGameContent {
            result,
            cell: map.get_cell(&player.pos),
            harvests: copy_counts(&player.harvests),
            seeds: copy_counts(&player.seeds),
            points: player.points,
        },
    )
}

/// How many envelopes in `out` go to player `id`.
pub open spec fn envelopes_for(out: Seq<Outbound>, id: u128) -> nat
    decreases out.len(),
{
    if out.len() == 0 {
        0
    } else {
        envelopes_for(out.drop_last(), id) + if out.last().to == Recipient::Player(id)
            && out.last().msg is Envelope {
            1nat
        } else {
            0nat
        }
    }
}

/// Every message of `out` goes to one of `players`.
pub open spec fn all_to_players(out: Seq<Outbound>, players: Seq<Player>) -> bool {
    forall|k: int|
        0 <= k < out.len() ==> exists|i: int|
            0 <= i < players.len() && (#[trigger] out[k]).to == Recipient::Player(players[i].player_id)
}

proof fn lemma_all_to_players_push(out: Seq<Outbound>, players: Seq<Player>, o: Outbound, i: int)
    requires
        all_to_players(out, players),
        0 <= i < players.len(),
        o.to == Recipient::Player(players[i].player_id),
    ensures
        all_to_players(out.push(o), players),
{
    assert forall|k: int| 0 <= k < out.push(o).len() implies exists|j: int|
        0 <= j < players.len() && (#[trigger] out.push(o)[k]).to == Recipient::Player(players[j].player_id) by {
        if k < out.len() {
            assert(out.push(o)[k] == out[k]);
        } else {
            assert(out.push(o)[k] == o);
        }
    }
}

/// A bare message for the sender of what is being answered.
pub open spec fn to_caller(m: MsgToPlayer) -> Seq<Outbound> {
    seq![Outbound { to: Recipient::Caller, msg: Outgoing::Bare(m) }]
}

/// A bare message for player `id`.
pub open spec fn bare_to(id: u128, m: MsgToPlayer) -> Outbound {
    Outbound { to: Recipient::Player(id), msg: Outgoing::Bare(m) }
}

/// The world while a turn's actions are carried out one player after
/// another: the cells, the players, the registry of active pairs, the swaps
/// queued so far and the moves noted so far.
pub struct Stage {
    pub cells: Seq<Cell>,
    pub players: Seq<Player>,
    pub active: Seq<SwapPair>,
    pub swaps: Seq<(Pos, Pos)>,
    pub moves: Seq<Option<Direction>>,
}

/// The stage a game stands at, with the moves and swaps noted so far.
pub open spec fn stage_of(g: Game, moves: Seq<Option<Direction>>, swaps: Seq<(Pos, Pos)>) -> Stage {
    Stage { cells: g.map.cells@, players: g.players@, active: g.active_swapshrooms@, swaps, moves }
}

/// Carrying out action `a` of player `k` takes stage `s0` to `s1`: a move is
/// only noted; every other action does what its own function does (see
/// `harvest_post`, `plant_post`, `trade_post`, `till_post`), with some
/// random draws for a planting.
pub open spec fn step_ok(s0: Stage, s1: Stage, k: int, a: Option<Action>, n: int) -> bool {
    &&& s1.players.len() == s0.players.len()
    &&& forall|j: int| 0 <= j < s0.players.len() && j != k ==> #[trigger] s1.players[j] == s0.players[j]
    &&& match a {
        None | Some(Action::Idle) => {
            &&& s1.cells == s0.cells
            &&& s1.players[k] == s0.players[k]
            &&& s1.active == s0.active
            &&& s1.swaps == s0.swaps
            &&& s1.moves == s0.moves
        },
        Some(Action::Move { direction }) => {
            &&& s1.cells == s0.cells
            &&& s1.players[k] == s0.players[k]
            &&& s1.active == s0.active
            &&& s1.swaps == s0.swaps
            &&& s1.moves == s0.moves.update(k, Some(direction))
        },
        Some(Action::Harvest) => {
            &&& s1.moves == s0.moves
            &&& exists|r: Option<MsgToPlayer>|
                #[trigger] harvest_post(
                    s0.cells,
                    n,
                    s0.players[k],
                    s0.active,
                    s0.swaps,
                    s1.cells,
                    s1.players[k],
                    s1.active,
                    s1.swaps,
                    r,
                )
        },
        Some(Action::Plant { seed }) => {
            &&& s1.active == s0.active
            &&& s1.swaps == s0.swaps
            &&& s1.moves == s0.moves
            &&& exists|fresh: u32, ranks: Seq<u8>, r: MsgToPlayer|
                (seed == Seed::Sunflower ==> ranks.len() == s0.cells.len()) && #[trigger] plant_post(
                    s0.cells,
                    n,
                    s0.players[k],
                    seed,
                    fresh,
                    ranks,
                    s1.cells,
                    s1.players[k],
                    r,
                )
        },
        Some(Action::Trade { seed, volume }) => {
            &&& s1.cells == s0.cells
            &&& s1.active == s0.active
            &&& s1.swaps == s0.swaps
            &&& s1.moves == s0.moves
            &&& exists|r: MsgToPlayer| #[trigger] trade_post(s0.players[k], seed, volume, s1.players[k], r)
        },
        Some(Action::Till) => {
            &&& s1.players[k] == s0.players[k]
            &&& s1.active == s0.active
            &&& s1.swaps == s0.swaps
            &&& s1.moves == s0.moves
            &&& exists|r: MsgToPlayer| #[trigger] till_post(s0.cells, n, s0.players[k].pos, s1.cells, r)
        },
    }
}

/// Whether action `a` of player `k`, carried out at stage `s`, is answered
/// at once with an envelope: every action but a move, and but a harvest that
/// sets off a swap.
pub open spec fn answered_at(s: Stage, k: int, a: Option<Action>, n: int) -> bool {
    match a {
        None => false,
        Some(Action::Move { .. }) => false,
        Some(Action::Harvest) => triggered_pair(s.cells[index_of(s.players[k].pos, n)], s.active, n) is None,
        Some(_) => true,
    }
}

/// The stages of a turn's actions in game `g`: from the game as it stands,
/// one step per player in the players' order, each with that player's
/// pending action.
pub open spec fn actions_traced(g: Game, trace: Seq<Stage>) -> bool {
    let count = g.players@.len();
    &&& trace.len() == count + 1
    &&& trace[0] == Stage {
        cells: g.map.cells@,
        players: g.players@,
        active: g.active_swapshrooms@,
        swaps: seq![],
        moves: Seq::new(count, |i: int| None),
    }
    &&& forall|k: int|
        0 <= k < count ==> #[trigger] step_ok(
            trace[k],
            trace[k + 1],
            k,
            pending_of(g.pending@, g.players@[k].player_id),
            g.map.size as int,
        )
}

/// One queued swap: whoever stands on one end goes to the other.
pub open spec fn swap_one(p: Pos, sw: (Pos, Pos)) -> Pos {
    if p == sw.0 {
        sw.1
    } else if p == sw.1 {
        sw.0
    } else {
        p
    }
}

/// Where a player at `p` ends after the swaps `sws`, in order.
pub open spec fn after_swaps(p: Pos, sws: Seq<(Pos, Pos)>) -> Pos
    decreases sws.len(),
{
    if sws.len() == 0 {
        p
    } else {
        swap_one(after_swaps(p, sws.drop_last()), sws.last())
    }
}

/// How many of the swaps `sws` carry a player who starts at `p`.
pub open spec fn swap_count(p: Pos, sws: Seq<(Pos, Pos)>) -> nat
    decreases sws.len(),
{
    if sws.len() == 0 {
        0
    } else {
        let q = after_swaps(p, sws.drop_last());
        swap_count(p, sws.drop_last()) + if q == sws.last().0 || q == sws.last().1 {
            1nat
        } else {
            0nat
        }
    }
}

/// How many bare messages in `out` go to player `id`.
pub open spec fn bares_for(out: Seq<Outbound>, id: u128) -> nat
    decreases out.len(),
{
    if out.len() == 0 {
        0
    } else {
        bares_for(out.drop_last(), id) + if out.last().to == Recipient::Player(id) && out.last().msg is Bare {
            1nat
        } else {
            0nat
        }
    }
}

/// The outcome of a turn of `g0` whose actions went through `trace`: the
/// moves are decided on the last stage, the queued swaps carry the players on
/// their ends, the map grows, and the messages are an envelope per answered
/// action and per move answer, then a bare `Swapped` per swap a player rode.
pub open spec fn turn_result(g0: Game, trace: Seq<Stage>, g1: Game, out: Seq<Outbound>) -> bool {
    let n = g0.map.size as int;
    let count = g0.players@.len();
    let s = trace[count as int];
    let ps = positions(s.players);
    let mid = worn_cells(s.cells, n, ps, s.moves);
    &&& g1.map.cells@ == advanced(mid, n, s.active).0
    &&& g1.active_swapshrooms@ == s.active + advanced(mid, n, s.active).1
    &&& g1.players@.len() == count
    &&& forall|i: int|
        0 <= i < count ==> #[trigger] g1.players@[i] == (Player {
            pos: after_swaps(moved_pos(s.cells, n, ps, s.moves, s.active, i), s.swaps),
            ..s.players[i]
        })
    &&& forall|i: int|
        0 <= i < count ==> #[trigger] envelopes_for(out, g0.players@[i].player_id) == (if answered_at(
            trace[i],
            i,
            pending_of(g0.pending@, g0.players@[i].player_id),
            n,
        ) {
            1nat
        } else {
            0nat
        }) + (if move_outcome(s.cells, n, ps, s.moves, s.active, i) is Some {
            1nat
        } else {
            0nat
        })
    &&& forall|i: int|
        0 <= i < count ==> #[trigger] bares_for(out, g0.players@[i].player_id) == swap_count(
            moved_pos(s.cells, n, ps, s.moves, s.active, i),
            s.swaps,
        )
    &&& forall|k: int| 0 <= k < out.len() && (#[trigger] out[k]).msg is Bare ==> out[k].msg == Outgoing::Bare(MsgToPlayer::Swapped)
    &&& forall|a: int, b: int| 0 <= a < b < out.len() && (#[trigger] out[a]).msg is Bare ==> (#[trigger] out[b]).msg is Bare
    &&& all_to_players(out, g0.players@)
}

proof fn lemma_bares_push(out: Seq<Outbound>, o: Outbound, id: u128)
    ensures
        bares_for(out.push(o), id) == bares_for(out, id) + if o.to == Recipient::Player(id) && o.msg is Bare {
            1nat
        } else {
            0nat
        },
{
    assert(out.push(o).drop_last() =~= out);
}

proof fn lemma_bares_none(out: Seq<Outbound>, id: u128)
    requires
        forall|k: int| 0 <= k < out.len() ==> (#[trigger] out[k]).msg is Envelope,
    ensures
        bares_for(out, id) == 0,
    decreases out.len(),
{
    if out.len() > 0 {
        lemma_bares_none(out.drop_last(), id);
    }
}

proof fn lemma_after_swaps_step(p: Pos, sws: Seq<(Pos, Pos)>, s: int)
    requires
        0 <= s < sws.len(),
    ensures
        after_swaps(p, sws.subrange(0, s + 1)) == swap_one(after_swaps(p, sws.subrange(0, s)), sws[s]),
        swap_count(p, sws.subrange(0, s + 1)) == swap_count(p, sws.subrange(0, s)) + if after_swaps(
            p,
            sws.subrange(0, s),
        ) == sws[s].0 || after_swaps(p, sws.subrange(0, s)) == sws[s].1 {
            1nat
        } else {
            0nat
        },
{
    assert(sws.subrange(0, s + 1).drop_last() =~= sws.subrange(0, s));
}

impl Game {
    pub open spec fn wf(&self) -> bool {
        &&& self.map.wf()
        &&& self.map.size == self.game_settings.map_size
        &&& forall|i: int| 0 <= i < self.players@.len() ==> (#[trigger] self.players@[i]).wf()
        &&& all_on_map(self.players@, self.map.size as int)
        &&& forall|i: int, j: int|
            0 <= i < j < self.players@.len() ==> (#[trigger] self.players@[i]).player_id
                != (#[trigger] self.players@[j]).player_id
        &&& forall|k: int, l: int|
            0 <= k < l < self.pending@.len() ==> (#[trigger] self.pending@[k]).0 != (#[trigger] self.pending@[l]).0
        &&& forall|k: int| 0 <= k < self.pending@.len() ==> has_player(self.players@, (#[trigger] self.pending@[k]).0)
        &&& distinct_pairs(self.active_swapshrooms@)
    }

    /// A new game waiting for its players, on a map drawn from the settings'
    /// seed.
    pub fn new(game_name: String, game_settings: GameSettings) -> (r: Game)
        requires
            1 <= game_settings.map_size <= MAX_MAP_SIZE,
        ensures
            r.wf(),
            r.game_name@ == game_name@,
            r.game_settings == game_settings,
            r.turns == 0,
            !r.running,
            r.players@.len() == 0,
            r.pending@.len() == 0,
            r.active_swapshrooms@.len() == 0,
            r.map.cells@.to_multiset() == bag(
                game_settings.map_size as int,
                game_settings.number_of_players as int,
            ).to_multiset(),
    {
        let mut rng = rng_from_seed(game_settings.seed);
        let map = FarmMap::generate_map(game_settings.map_size as usize, &mut rng, game_settings.number_of_players);
        Game {
            game_name,
            game_settings,
            turns: 0,
            running: false,
            players: Vec::new(),
            map,
            active_swapshrooms: Vec::new(),
            pending: Vec::new(),
            rng,
        }
    }

    /// The index of player `id`.
    pub fn find_player(&self, id: u128) -> (r: Option<usize>)
        ensures
            match r {
                Some(i) => i < self.players@.len() && self.players@[i as int].player_id == id,
                None => !has_player(self.players@, id),
            },
    {
        let mut i: usize = 0;
        while i < self.players.len()
            invariant
                i <= self.players@.len(),
                forall|k: int| 0 <= k < i ==> (#[trigger] self.players@[k]).player_id != id,
            decreases self.players@.len() - i,
        {
            if self.players[i].player_id == id {
                return Some(i);
            }
            i = i + 1;
        }
        None
    }

    fn is_occupied(&self, p: Pos) -> (r: bool)
        ensures
            r == occupied(self.players@, p),
    {
        let mut i: usize = 0;
        while i < self.players.len()
            invariant
                i <= self.players@.len(),
                forall|k: int| 0 <= k < i ==> (#[trigger] self.players@[k]).pos != p,
            decreases self.players@.len() - i,
        {
            if self.players[i].pos == p {
                return true;
            }
            i = i + 1;
        }
        false
    }

    /// The first stone, row by row, that no player stands on.
    pub fn free_spot(&self) -> (r: Option<Pos>)
        requires
            self.map.wf(),
        ensures
            r == first_free_stone(self.map.cells@, self.map.size as int, self.players@, 0),
            r matches Some(p) ==> self.map.contains(p) && self.map.at(p).ground == Ground::Stone
                && !occupied(self.players@, p),
    {
        let mut c: usize = 0;
        while c < self.map.cells.len()
            invariant
                self.map.wf(),
                c <= self.map.cells@.len(),
                first_free_stone(self.map.cells@, self.map.size as int, self.players@, 0) == first_free_stone(
                    self.map.cells@,
                    self.map.size as int,
                    self.players@,
                    c as int,
                ),
            decreases self.map.cells@.len() - c,
        {
            if self.map.cells[c].ground == Ground::Stone {
                let p = self.map.pos_at(c);
                if !self.is_occupied(p) {
                    return Some(p);
                }
            }
            c = c + 1;
        }
        None
    }

    /// A player connects, as `player_id` under `player_name`.
    ///
    /// Returns whether the caller's channel becomes the player's, and the
    /// messages to send. While players are awaited: a known id is told
    /// `AlreadyConnected`; a new one takes the first free stone and is told
    /// `Connected` with the count of players so far, or `GameIsFull` without
    /// a free stone (or once `u32::MAX` players have joined); when the last player has joined, everyone is told
    /// `GameStarted` and turns begin. Once running: a known id is told
    /// `Reconnected` and its channel replaced; anyone else is told
    /// `GameIsFull`.
    pub fn connect(&mut self, player_id: u128, player_name: String) -> (r: (bool, Vec<Outbound>))
        requires
            old(self).wf(),
        ensures
            final(self).wf(),
            final(self).map == old(self).map,
            final(self).pending == old(self).pending,
            final(self).turns == old(self).turns,
            final(self).game_settings == old(self).game_settings,
            ({
                let players = old(self).players@;
                let known = has_player(players, player_id);
                if old(self).running {
                    &&& final(self).players@ == players
                    &&& final(self).running
                    &&& r.0 == known
                    &&& r.1@ == if known {
                        seq![bare_to(player_id, MsgToPlayer::Reconnected)]
                    } else {
                        to_caller(MsgToPlayer::GameIsFull)
                    }
                } else if known {
                    &&& final(self).players@ == players
                    &&& !final(self).running
                    &&& !r.0
                    &&& r.1@ == to_caller(MsgToPlayer::AlreadyConnected)
                } else {
                    match if players.len() < u32::MAX {
                        first_free_stone(old(self).map.cells@, old(self).map.size as int, players, 0)
                    } else {
                        None
                    } {
                        None => {
                            &&& final(self).players@ == players
                            &&& !final(self).running
                            &&& !r.0
                            &&& r.1@ == to_caller(MsgToPlayer::GameIsFull)
                        },
                        Some(p) => {
                            let count = players.len() + 1;
                            let full = count == old(self).game_settings.number_of_players;
                            &&& r.0
                            &&& final(self).players@.len() == count
                            &&& final(self).players@.subrange(0, players.len() as int) == players
                            &&& final(self).players@.last().player_id == player_id
                            &&& final(self).players@.last().player_name@ == player_name@
                            &&& final(self).players@.last().pos == p
                            &&& final(self).players@.last().points == 0
                            &&& final(self).players@.last().next_swapshroom_pair_id is None
                            &&& final(self).players@.last().harvests@ == Seq::new(
                                HARVEST_KINDS as nat,
                                |k: int| STARTING_HARVEST,
                            )
                            &&& final(self).players@.last().seeds@ == Seq::new(SEED_KINDS as nat, |k: int| 0u32)
                            &&& final(self).running == full
                            &&& r.1@.len() == if full {
                                count + 1
                            } else {
                                1
                            }
                            &&& r.1@[0] == bare_to(
                                player_id,
                                MsgToPlayer::Connected {
                                    game_settings: old(self).game_settings,
                                    players_connected: count as u32,
                                },
                            )
                            &&& full ==> forall|i: int|
                                0 <= i < count ==> #[trigger] r.1@[i + 1] == bare_to(
                                    final(self).players@[i].player_id,
                                    MsgToPlayer::GameStarted,
                                )
                        },
                    }
                }
            }),
    {
        let mut out: Vec<Outbound> = Vec::new();
        let known = self.find_player(player_id);
        if self.running {
            if known.is_some() {
                out.push(Outbound { to: Recipient::Player(player_id), msg: Outgoing::Bare(MsgToPlayer::Reconnected) });
                return (true, out);
            }
            out.push(Outbound { to: Recipient::Caller, msg: Outgoing::Bare(MsgToPlayer::GameIsFull) });
            return (false, out);
        }
        if known.is_some() {
            out.push(Outbound { to: Recipient::Caller, msg: Outgoing::Bare(MsgToPlayer::AlreadyConnected) });
            return (false, out);
        }
        let spot = if self.players.len() < u32::MAX as usize {
            self.free_spot()
        } else {
            None
        };
        match spot {
            None => {
                out.push(Outbound { to: Recipient::Caller, msg: Outgoing::Bare(MsgToPlayer::GameIsFull) });
                (false, out)
            },
            Some(p) => {
                let ghost players0 = self.players@;
                let ghost pending0 = self.pending@;
                let player = Player::new(player_name, player_id, p);
                proof {
                    assert(player.harvests@ =~= Seq::new(HARVEST_KINDS as nat, |k: int| STARTING_HARVEST));
                    assert(player.seeds@ =~= Seq::new(SEED_KINDS as nat, |k: int| 0u32));
                }
                self.players.push(player);
                proof {
                    assert(self.players@.subrange(0, players0.len() as int) =~= players0);
                    assert forall|k: int| 0 <= k < self.pending@.len() implies has_player(
                        self.players@,
                        (#[trigger] self.pending@[k]).0,
                    ) by {
                        let i = choose|i: int| 0 <= i < players0.len() && (#[trigger] players0[i]).player_id == pending0[k].0;
                        assert(self.players@[i] == players0[i]);
                    }
                }
                let count = self.players.len();
                out.push(
                    Outbound {
                        to: Recipient::Player(player_id),
                        msg: Outgoing::Bare(
                            MsgToPlayer::Connected { game_settings: self.game_settings, players_connected: count as u32 },
                        ),
                    },
                );
                if count as u64 == self.game_settings.number_of_players as u64 {
                    self.running = true;
                    let mut i: usize = 0;
                    while i < self.players.len()
                        invariant
                            i <= self.players@.len(),
                            out@.len() == i + 1,
                            out@[0] == bare_to(
                                player_id,
                                MsgToPlayer::Connected { game_settings: self.game_settings, players_connected: count as u32 },
                            ),
                            forall|k: int|
                                0 <= k < i ==> #[trigger] out@[k + 1] == bare_to(
                                    self.players@[k].player_id,
                                    MsgToPlayer::GameStarted,
                                ),
                        decreases self.players@.len() - i,
                    {
                        out.push(
                            Outbound {
                                to: Recipient::Player(self.players[i].player_id),
                                msg: Outgoing::Bare(MsgToPlayer::GameStarted),
                            },
                        );
                        i = i + 1;
                    }
                }
                (true, out)
            },
        }
    }

    /// The entry of `pending` for player `id`.
    fn pending_slot(&self, id: u128) -> (r: Option<usize>)
        ensures
            match r {
                Some(k) => k < self.pending@.len() && pending_index(self.pending@, id, 0) == Some(k as int),
                None => pending_index(self.pending@, id, 0) is None,
            },
    {
        let mut k: usize = 0;
        while k < self.pending.len()
            invariant
                pending_index(self.pending@, id, 0) == pending_index(self.pending@, id, k as int),
            decreases self.pending@.len() - k,
        {
            if self.pending[k].0 == id {
                return Some(k);
            }
            k = k + 1;
        }
        None
    }

    /// Player `player_id` hands in an action.
    ///
    /// While players are awaited nothing is kept: a known player is told
    /// `WaitingOtherPlayersToJoin`. Once running, the action of a known
    /// player is kept for the turn, replacing one handed in before. Actions
    /// of unknown ids are dropped.
    pub fn submit(&mut self, player_id: u128, action: Action) -> (r: Vec<Outbound>)
        requires
            old(self).wf(),
        ensures
            final(self).wf(),
            final(self).players == old(self).players,
            final(self).map == old(self).map,
            final(self).running == old(self).running,
            final(self).turns == old(self).turns,
            final(self).game_settings == old(self).game_settings,
            final(self).active_swapshrooms == old(self).active_swapshrooms,
            ({
                let known = has_player(old(self).players@, player_id);
                if !old(self).running {
                    &&& final(self).pending == old(self).pending
                    &&& r@ == if known {
                        seq![bare_to(player_id, MsgToPlayer::WaitingOtherPlayersToJoin)]
                    } else {
                        Seq::<Outbound>::empty()
                    }
                } else {
                    &&& r@.len() == 0
                    &&& if known {
                        final(self).pending@ == match pending_index(old(self).pending@, player_id, 0) {
                            Some(k) => old(self).pending@.update(k, (player_id, action)),
                            None => old(self).pending@.push((player_id, action)),
                        }
                    } else {
                        final(self).pending == old(self).pending
                    }
                }
            }),
    {
        let mut out: Vec<Outbound> = Vec::new();
        let known = self.find_player(player_id);
        if !self.running {
            if known.is_some() {
                out.push(
                    Outbound {
                        to: Recipient::Player(player_id),
                        msg: Outgoing::Bare(MsgToPlayer::WaitingOtherPlayersToJoin),
                    },
                );
            }
            return out;
        }
        if known.is_none() {
            return out;
        }
        let ghost p0 = self.pending@;
        match self.pending_slot(player_id) {
            Some(k) => {
                self.pending.set(k, (player_id, action));
                proof {
                    lemma_pending_index_some(p0, player_id, 0, k as int);
                    assert forall|a: int, b: int|
                        0 <= a < b < self.pending@.len() implies (#[trigger] self.pending@[a]).0
                        != (#[trigger] self.pending@[b]).0 by {
                        assert(p0[a].0 != p0[b].0);
                    }
                    assert forall|j: int| 0 <= j < self.pending@.len() implies has_player(
                        self.players@,
                        (#[trigger] self.pending@[j]).0,
                    ) by {
                        assert(has_player(self.players@, p0[j].0));
                    }
                }
            },
            None => {
                self.pending.push((player_id, action));
                proof {
                    lemma_pending_index_none(p0, player_id, 0);
                    assert forall|a: int, b: int|
                        0 <= a < b < self.pending@.len() implies (#[trigger] self.pending@[a]).0
                        != (#[trigger] self.pending@[b]).0 by {
                        if b < p0.len() {
                            assert(p0[a].0 != p0[b].0);
                        } else {
                            assert(p0[a].0 != player_id);
                        }
                    }
                    assert forall|j: int| 0 <= j < self.pending@.len() implies has_player(
                        self.players@,
                        (#[trigger] self.pending@[j]).0,
                    ) by {
                        if j < p0.len() {
                            assert(has_player(self.players@, p0[j].0));
                        } else {
                            let i = known.unwrap();
                            assert(self.players@[i as int].player_id == player_id);
                        }
                    }
                }
            },
        }
        out
    }

    /// One random rank for each stone of the map, zero elsewhere.
    fn draw_ranks(&mut self) -> (r: Vec<u8>)
        requires
            old(self).wf(),
        ensures
            final(self).wf(),
            r@.len() == final(self).map.cells@.len(),
            final(self).map == old(self).map,
            final(self).players == old(self).players,
            final(self).pending == old(self).pending,
            final(self).active_swapshrooms == old(self).active_swapshrooms,
            final(self).running == old(self).running,
            final(self).turns == old(self).turns,
            final(self).game_settings == old(self).game_settings,
            final(self).game_name == old(self).game_name,
    {
        let mut ranks: Vec<u8> = Vec::new();
        let mut c: usize = 0;
        while c < self.map.cells.len()
            invariant
                self.wf(),
                self.map == old(self).map,
                self.players == old(self).players,
                self.pending == old(self).pending,
                self.active_swapshrooms == old(self).active_swapshrooms,
                self.running == old(self).running,
                self.turns == old(self).turns,
                self.game_settings == old(self).game_settings,
                self.game_name == old(self).game_name,
                c <= self.map.cells@.len(),
                ranks@.len() == c,
            decreases self.map.cells@.len() - c,
        {
            let rank = if self.map.cells[c].ground == Ground::Stone {
                draw_rank(&mut self.rng)
            } else {
                0
            };
            ranks.push(rank);
            c = c + 1;
        }
        ranks
    }

    /// Carries out the action of player `i`, except a move, which is only
    /// noted in `moves`; answers with an envelope, except for a move or a
    /// harvest that set off a swap.
    fn apply_action(
        &mut self,
        i: usize,
        a: Action,
        moves: &mut Vec<Option<Direction>>,
        swaps: &mut Vec<(Pos, Pos)>,
    ) -> (r: Option<Outgoing>)
        requires
            old(self).wf(),
            i < old(self).players@.len(),
            old(moves)@.len() == old(self).players@.len(),
            swaps_on_map(old(swaps)@, old(self).map.size as int),
        ensures
            final(self).wf(),
            final(self).players@.len() == old(self).players@.len(),
            forall|k: int|
                0 <= k < final(self).players@.len() ==> (#[trigger] final(self).players@[k]).player_id
                    == old(self).players@[k].player_id,
            final(self).pending == old(self).pending,
            final(self).running == old(self).running,
            final(self).turns == old(self).turns,
            final(self).game_settings == old(self).game_settings,
            final(self).map.size == old(self).map.size,
            final(self).game_name == old(self).game_name,
            final(moves)@.len() == old(moves)@.len(),
            swaps_on_map(final(swaps)@, old(self).map.size as int),
            step_ok(
                stage_of(*old(self), old(moves)@, old(swaps)@),
                stage_of(*final(self), final(moves)@, final(swaps)@),
                i as int,
                Some(a),
                old(self).map.size as int,
            ),
            r is Some <==> answered_at(
                stage_of(*old(self), old(moves)@, old(swaps)@),
                i as int,
                Some(a),
                old(self).map.size as int,
            ),
            r matches Some(o) ==> o is Envelope,
    {
        let ghost players0 = self.players@;
        let ghost n = self.map.size as int;
        let result = match a {
            Action::Idle => MsgToPlayer::Idled,
            Action::Move { direction } => {
                moves.set(i, Some(direction));
                return None;
            },
            Action::Harvest => {
                let ghost swaps0 = swaps@;
                let ghost act0 = self.active_swapshrooms@;
                let ghost cell = self.map.at(self.players@[i as int].pos);
                let m = action_harvest(&mut self.map, &mut self.players[i], &mut self.active_swapshrooms, swaps);
                proof {
                    assert(harvest_post(
                        old(self).map.cells@,
                        n,
                        old(self).players@[i as int],
                        act0,
                        swaps0,
                        self.map.cells@,
                        self.players@[i as int],
                        self.active_swapshrooms@,
                        swaps@,
                        m,
                    ));
                    assert(exists|rr: Option<MsgToPlayer>|
                        #[trigger] harvest_post(
                            old(self).map.cells@,
                            n,
                            old(self).players@[i as int],
                            act0,
                            swaps0,
                            self.map.cells@,
                            self.players@[i as int],
                            self.active_swapshrooms@,
                            swaps@,
                            rr,
                        ));
                    if let Some(k) = crate::actions::triggered_pair(cell, act0, n) {
                        assert(swaps@.last() == (act0[k].first, act0[k].second));
                        crate::actions::lemma_first_pair_in_range(act0, cell.plant->Swapshroom_0.pair_id, 0);
                        assert(self.active_swapshrooms@ == act0.remove(k));
                        assert(act0.remove(k) =~= act0.subrange(0, k) + act0.subrange(k + 1, act0.len() as int));
                        assert forall|x: int, y: int| 0 <= x < y < self.active_swapshrooms@.len() implies (
                        #[trigger] self.active_swapshrooms@[x]).pair_id != (#[trigger] self.active_swapshrooms@[y]).pair_id by {
                            let x0 = if x < k { x } else { x + 1 };
                            let y0 = if y < k { y } else { y + 1 };
                            assert(self.active_swapshrooms@[x] == act0[x0]);
                            assert(self.active_swapshrooms@[y] == act0[y0]);
                        }
                    }
                    assert forall|k: int| 0 <= k < swaps@.len() implies (#[trigger] swaps@[k]).0.in_map(n)
                        && swaps@[k].1.in_map(n) by {
                        if k < swaps0.len() {
                            assert(swaps@[k] == swaps0[k]);
                        }
                    }
                }
                match m {
                    Some(m) => m,
                    None => {
                        proof {
                            self.lemma_ids_kept(players0);
                            assert(self.players@ =~= old(self).players@.update(i as int, self.players@[i as int]));
                            assert(moves@ == old(moves)@);
                            let s0 = stage_of(*old(self), old(moves)@, old(swaps)@);
                            let s1 = stage_of(*self, moves@, swaps@);
                            assert(s1.players.len() == s0.players.len());
                            assert(forall|j: int| 0 <= j < s0.players.len() && j != i ==> #[trigger] s1.players[j] == s0.players[j]);
                            assert(s1.moves == s0.moves);
                            assert(s0.players[i as int] == old(self).players@[i as int]);
                            assert(s0.cells == old(self).map.cells@);
                            assert(s0.active == act0);
                            assert(s0.swaps == swaps0);
                            assert(harvest_post(s0.cells, n, s0.players[i as int], s0.active, s0.swaps, s1.cells, s1.players[i as int], s1.active, s1.swaps, m));
                        }
                        return None;
                    },
                }
            },
            Action::Plant { seed } => {
                let fresh = match (seed, self.players[i].next_swapshroom_pair_id) {
                    (Seed::Swapshroom, None) => draw_pair_id(&mut self.rng),
                    _ => 0,
                };
                let ranks = match seed {
                    Seed::Sunflower => self.draw_ranks(),
                    _ => Vec::new(),
                };
                let ghost cells0 = self.map.cells@;
                let ghost p0 = self.players@[i as int];
                let m = action_plant(&mut self.map, &mut self.players[i], seed, fresh, &ranks);
                proof {
                    assert(plant_post(cells0, n, p0, seed, fresh, ranks@, self.map.cells@, self.players@[i as int], m));
                    assert(seed == Seed::Sunflower ==> ranks@.len() == cells0.len());
                    assert(exists|fr: u32, rk: Seq<u8>, rr: MsgToPlayer|
                        (seed == Seed::Sunflower ==> rk.len() == cells0.len()) && #[trigger] plant_post(
                            cells0,
                            n,
                            p0,
                            seed,
                            fr,
                            rk,
                            self.map.cells@,
                            self.players@[i as int],
                            rr,
                        ));
                    assert(cells0 == old(self).map.cells@);
                    assert(p0 == old(self).players@[i as int]);
                }
                m
            },
            Action::Trade { seed, volume } => {
                let m = action_trade(&mut self.players[i], seed, volume);
                proof {
                    assert(trade_post(old(self).players@[i as int], seed, volume, self.players@[i as int], m));
                }
                m
            },
            Action::Till => {
                let m = action_till(&mut self.map, &self.players[i]);
                proof {
                    assert(till_post(old(self).map.cells@, n, self.players@[i as int].pos, self.map.cells@, m));
                }
                m
            },
        };
        proof {
            self.lemma_ids_kept(players0);
            assert(self.players@ =~= old(self).players@.update(i as int, self.players@[i as int]));
            assert(moves@ == old(moves)@);
            let s0 = stage_of(*old(self), old(moves)@, old(swaps)@);
            let s1 = stage_of(*self, moves@, swaps@);
            assert(forall|j: int| 0 <= j < s0.players.len() && j != i ==> #[trigger] s1.players[j] == s0.players[j]);
            match a {
                Action::Plant { seed } => {
                    assert(s1.active == s0.active);
                    assert(s1.swaps == s0.swaps);
                    assert(s0.cells == old(self).map.cells@);
                    assert(s1.cells == self.map.cells@);
                    assert(s0.players[i as int] == old(self).players@[i as int]);
                    assert(s1.players[i as int] == self.players@[i as int]);
                    assert(s0.active == old(self).active_swapshrooms@);
                    assert(s1.active == self.active_swapshrooms@);
                    assert(s0.swaps == old(swaps)@);
                    assert(s1.swaps == swaps@);
                    assert(step_ok(s0, s1, i as int, Some(a), n));
                },
                Action::Till => {
                    assert(s1.players[i as int] == s0.players[i as int]);
                    assert(s0.cells == old(self).map.cells@);
                    assert(s1.cells == self.map.cells@);
                    assert(s0.players[i as int] == old(self).players@[i as int]);
                    assert(s1.players[i as int] == self.players@[i as int]);
                    assert(step_ok(s0, s1, i as int, Some(a), n));
                },
                Action::Trade { .. } => {
                    assert(s1.cells == s0.cells);
                    assert(s0.cells == old(self).map.cells@);
                    assert(s1.cells == self.map.cells@);
                    assert(s0.players[i as int] == old(self).players@[i as int]);
                    assert(s1.players[i as int] == self.players@[i as int]);
                    assert(step_ok(s0, s1, i as int, Some(a), n));
                },
                Action::Harvest => {
                    assert(s0.cells == old(self).map.cells@);
                    assert(s1.cells == self.map.cells@);
                    assert(s0.players[i as int] == old(self).players@[i as int]);
                    assert(s1.players[i as int] == self.players@[i as int]);
                    assert(s0.active == old(self).active_swapshrooms@);
                    assert(s1.active == self.active_swapshrooms@);
                    assert(s0.swaps == old(swaps)@);
                    assert(s1.swaps == swaps@);
                    assert(step_ok(s0, s1, i as int, Some(a), n));
                },
                Action::Idle => {
                    assert(step_ok(s0, s1, i as int, Some(a), n));
                },
                _ => {},
            }
        }
        Some(msg_to_player_with_game_content(&self.map, &self.players[i], result))
    }

    /// The players' ids did not change since `players0`, so the game's
    /// bookkeeping still holds.
    proof fn lemma_ids_kept(&self, players0: Seq<Player>)
        requires
            self.map.wf(),
            self.map.size == self.game_settings.map_size,
            forall|i: int| 0 <= i < self.players@.len() ==> (#[trigger] self.players@[i]).wf(),
            all_on_map(self.players@, self.map.size as int),
            self.players@.len() == players0.len(),
            forall|k: int| 0 <= k < players0.len() ==> (#[trigger] self.players@[k]).player_id == players0[k].player_id,
            forall|i: int, j: int|
                0 <= i < j < players0.len() ==> (#[trigger] players0[i]).player_id != (#[trigger] players0[j]).player_id,
            forall|k: int, l: int|
                0 <= k < l < self.pending@.len() ==> (#[trigger] self.pending@[k]).0 != (#[trigger] self.pending@[l]).0,
            forall|k: int| 0 <= k < self.pending@.len() ==> has_player(players0, (#[trigger] self.pending@[k]).0),
            distinct_pairs(self.active_swapshrooms@),
        ensures
            self.wf(),
    {
        assert forall|i: int, j: int| 0 <= i < j < self.players@.len() implies (#[trigger] self.players@[i]).player_id
            != (#[trigger] self.players@[j]).player_id by {
            assert(players0[i].player_id != players0[j].player_id);
        }
        assert forall|k: int| 0 <= k < self.pending@.len() implies has_player(self.players@, (#[trigger] self.pending@[k]).0) by {
            let i = choose|i: int| 0 <= i < players0.len() && (#[trigger] players0[i]).player_id == self.pending@[k].0;
            assert(self.players@[i].player_id == players0[i].player_id);
        }
    }

    /// The action pending for player `id`.
    fn pending_action(&self, id: u128) -> (r: Option<Action>)
        ensures
            r == pending_of(self.pending@, id),
    {
        match self.pending_slot(id) {
            Some(k) => Some(self.pending[k].1),
            None => None,
        }
    }

    /// Resolves the turn. The actions handed in are carried out player by
    /// player, in the players' order (see `actions_traced`); then the moves
    /// are decided all at once (see `move_outcome`), which also answers a
    /// player who stands still on a wallbush; then the queued swaps carry the
    /// players on their ends; then the map grows (see `turn_result`). Each
    /// player gets one envelope for an answered action and one for a move
    /// answer; a harvest that set off a swap gets none, and each swap a
    /// player rides brings a bare `Swapped`, after all envelopes.
    pub fn resolve_turn(&mut self) -> (r: Vec<Outbound>)
        requires
            old(self).wf(),
        ensures
            final(self).wf(),
            final(self).running == old(self).running,
            final(self).game_settings == old(self).game_settings,
            final(self).game_name == old(self).game_name,
            final(self).pending@.len() == 0,
            final(self).turns == if old(self).turns < u32::MAX {
                (old(self).turns + 1) as u32
            } else {
                old(self).turns
            },
            exists|trace: Seq<Stage>|
                #[trigger] actions_traced(*old(self), trace) && turn_result(*old(self), trace, *final(self), r@),
    {
        let ghost g0 = *self;
        let ghost players0 = self.players@;
        let ghost pending0 = self.pending@;
        let ghost n = self.map.size as int;
        let count = self.players.len();
        let mut moves: Vec<Option<Direction>> = Vec::new();
        let mut i: usize = 0;
        while i < count
            invariant
                count == self.players@.len(),
                moves@.len() == i,
                i <= count,
                forall|k: int| 0 <= k < i ==> (#[trigger] moves@[k]) is None,
            decreases count - i,
        {
            moves.push(None);
            i = i + 1;
        }
        let mut swaps: Vec<(Pos, Pos)> = Vec::new();
        let mut out: Vec<Outbound> = Vec::new();
        let ghost mut trace: Seq<Stage> = seq![stage_of(*self, moves@, swaps@)];
        proof {
            assert(moves@ =~= Seq::new(count as nat, |i: int| None::<Direction>));
            assert(swaps@ =~= Seq::<(Pos, Pos)>::empty());
        }
        let mut i: usize = 0;
        while i < count
            invariant
                self.wf(),
                self.pending@ == pending0,
                self.running == g0.running,
                self.turns == g0.turns,
                self.game_settings == g0.game_settings,
                self.game_name == g0.game_name,
                self.map.size == n,
                n == g0.map.size,
                g0.players@ == players0,
                g0.pending@ == pending0,
                count == self.players@.len(),
                count == players0.len(),
                forall|k: int| 0 <= k < count ==> (#[trigger] self.players@[k]).player_id == players0[k].player_id,
                forall|a: int, b: int|
                    0 <= a < b < count ==> (#[trigger] players0[a]).player_id != (#[trigger] players0[b]).player_id,
                moves@.len() == count,
                swaps_on_map(swaps@, n),
                i <= count,
                trace.len() == i + 1,
                trace[0] == (Stage {
                    cells: g0.map.cells@,
                    players: g0.players@,
                    active: g0.active_swapshrooms@,
                    swaps: seq![],
                    moves: Seq::new(count as nat, |i: int| None),
                }),
                trace[i as int] == stage_of(*self, moves@, swaps@),
                forall|k: int|
                    0 <= k < i ==> #[trigger] step_ok(
                        trace[k],
                        trace[k + 1],
                        k,
                        pending_of(pending0, players0[k].player_id),
                        n,
                    ),
                forall|k: int|
                    0 <= k < count ==> #[trigger] envelopes_for(out@, players0[k].player_id) == if k < i
                        && answered_at(trace[k], k, pending_of(pending0, players0[k].player_id), n) {
                        1nat
                    } else {
                        0nat
                    },
                forall|k: int| 0 <= k < out@.len() ==> (#[trigger] out@[k]).msg is Envelope,
                all_to_players(out@, players0),
            decreases count - i,
        {
            let id = self.players[i].player_id;
            let ghost out0 = out@;
            let ghost before = stage_of(*self, moves@, swaps@);
            let a = self.pending_action(id);
            let answer = match a {
                Some(a) => self.apply_action(i, a, &mut moves, &mut swaps),
                None => None,
            };
            if let Some(o) = answer {
                out.push(Outbound { to: Recipient::Player(id), msg: o });
                proof {
                    lemma_all_to_players_push(out0, players0, out@.last(), i as int);
                    assert(out@ =~= out0.push(out@.last()));
                }
            }
            proof {
                let after = stage_of(*self, moves@, swaps@);
                assert(step_ok(before, after, i as int, a, n));
                trace = trace.push(after);
                assert(trace[i as int] == before);
                assert forall|k: int| 0 <= k < count implies #[trigger] envelopes_for(out@, players0[k].player_id)
                    == envelopes_for(out0, players0[k].player_id) + if k == i && answer is Some {
                    1nat
                } else {
                    0nat
                } by {
                    if answer is Some {
                        lemma_envelopes_push(out0, out@.last(), players0[k].player_id);
                        if k != i {
                            assert(players0[k].player_id != players0[i as int].player_id);
                        }
                    }
                }
                assert forall|k: int|
                    0 <= k < i + 1 implies #[trigger] step_ok(
                    trace[k],
                    trace[k + 1],
                    k,
                    pending_of(pending0, players0[k].player_id),
                    n,
                ) by {
                    if k == i {
                        assert(trace[k] == before);
                        assert(trace[k + 1] == after);
                    }
                }
            }
            i = i + 1;
        }
        let ghost s = stage_of(*self, moves@, swaps@);
        let ghost ps = positions(s.players);
        let ghost out1 = out@;
        let results = action_move_execution(&mut self.map, &mut self.players, &moves, &self.active_swapshrooms);
        proof {
            assert forall|k: int| 0 <= k < self.players@.len() implies (#[trigger] self.players@[k]).wf() by {
                assert(s.players[k].wf());
            }
        }
        let ghost moved = self.players@;
        let mut i: usize = 0;
        while i < count
            invariant
                self.map.wf(),
                self.map.size == n,
                n == self.game_settings.map_size,
                self.game_settings == g0.game_settings,
                self.running == g0.running,
                self.turns == g0.turns,
                self.game_name == g0.game_name,
                self.pending@ == pending0,
                self.active_swapshrooms@ == s.active,
                self.map.cells@ == worn_cells(s.cells, n, ps, s.moves),
                self.players@ == moved,
                forall|k: int| 0 <= k < self.players@.len() ==> (#[trigger] self.players@[k]).wf(),
                count == self.players@.len(),
                count == players0.len(),
                all_on_map(self.players@, n),
                forall|k: int| 0 <= k < count ==> (#[trigger] self.players@[k]).player_id == players0[k].player_id,
                forall|a: int, b: int|
                    0 <= a < b < count ==> (#[trigger] players0[a]).player_id != (#[trigger] players0[b]).player_id,
                results@.len() == count,
                forall|k: int|
                    0 <= k < count ==> #[trigger] results@[k] == move_outcome(s.cells, n, ps, s.moves, s.active, k),
                i <= count,
                forall|k: int|
                    0 <= k < count ==> #[trigger] envelopes_for(out@, players0[k].player_id) == envelopes_for(
                        out1,
                        players0[k].player_id,
                    ) + if k < i && results@[k] is Some {
                        1nat
                    } else {
                        0nat
                    },
                forall|k: int| 0 <= k < out@.len() ==> (#[trigger] out@[k]).msg is Envelope,
                all_to_players(out@, players0),
            decreases count - i,
        {
            if let Some(m) = results[i] {
                let ghost out0 = out@;
                let env = msg_to_player_with_game_content(&self.map, &self.players[i], m);
                out.push(Outbound { to: Recipient::Player(self.players[i].player_id), msg: env });
                proof {
                    lemma_all_to_players_push(out0, players0, out@.last(), i as int);
                    assert(out@ =~= out0.push(out@.last()));
                    assert forall|k: int| 0 <= k < count implies #[trigger] envelopes_for(out@, players0[k].player_id)
                        == envelopes_for(out0, players0[k].player_id) + if k == i {
                        1nat
                    } else {
                        0nat
                    } by {
                        lemma_envelopes_push(out0, out@.last(), players0[k].player_id);
                        if k != i {
                            assert(players0[k].player_id != players0[i as int].player_id);
                        }
                    }
                }
            }
            i = i + 1;
        }
        let ghost out2 = out@;
        proof {
            assert forall|id: u128| #[trigger] bares_for(out2, id) == 0 by {
                lemma_bares_none(out2, id);
            }
        }
        // swapped players go last
        let mut t: usize = 0;
        while t < swaps.len()
            invariant
                self.map.wf(),
                self.map.size == n,
                n == self.game_settings.map_size,
                self.game_settings == g0.game_settings,
                self.running == g0.running,
                self.turns == g0.turns,
                self.game_name == g0.game_name,
                self.pending@ == pending0,
                self.active_swapshrooms@ == s.active,
                self.map.cells@ == worn_cells(s.cells, n, ps, s.moves),
                forall|k: int| 0 <= k < self.players@.len() ==> (#[trigger] self.players@[k]).wf(),
                count == self.players@.len(),
                count == players0.len(),
                moved.len() == count,
                1 <= n,
                all_on_map(self.players@, n),
                forall|k: int|
                    0 <= k < count ==> #[trigger] self.players@[k] == (Player {
                        pos: after_swaps(moved[k].pos, swaps@.subrange(0, t as int)),
                        ..moved[k]
                    }),
                forall|k: int| 0 <= k < count ==> (#[trigger] moved[k]).player_id == players0[k].player_id,
                forall|a: int, b: int|
                    0 <= a < b < count ==> (#[trigger] players0[a]).player_id != (#[trigger] players0[b]).player_id,
                swaps@ == s.swaps,
                swaps_on_map(swaps@, n),
                t <= swaps@.len(),
                out@.len() >= out2.len(),
                out@.subrange(0, out2.len() as int) == out2,
                forall|k: int| out2.len() <= k < out@.len() ==> (#[trigger] out@[k]).msg == Outgoing::Bare(MsgToPlayer::Swapped),
                forall|k: int| 0 <= k < out2.len() ==> (#[trigger] out@[k]).msg is Envelope,
                forall|id: u128| #[trigger] envelopes_for(out@, id) == envelopes_for(out2, id),
                forall|k: int|
                    0 <= k < count ==> #[trigger] bares_for(out@, players0[k].player_id) == swap_count(
                        moved[k].pos,
                        swaps@.subrange(0, t as int),
                    ),
                all_to_players(out@, players0),
            decreases swaps@.len() - t,
        {
            let (p1, p2) = swaps[t];
            let ghost sub = swaps@.subrange(0, t as int);
            let mut j: usize = 0;
            while j < self.players.len()
                invariant
                    self.map.wf(),
                    self.map.size == n,
                    n == self.game_settings.map_size,
                    self.game_settings == g0.game_settings,
                    self.running == g0.running,
                    self.turns == g0.turns,
                    self.game_name == g0.game_name,
                    self.pending@ == pending0,
                    self.active_swapshrooms@ == s.active,
                    self.map.cells@ == worn_cells(s.cells, n, ps, s.moves),
                    forall|k: int| 0 <= k < self.players@.len() ==> (#[trigger] self.players@[k]).wf(),
                    count == self.players@.len(),
                    count == players0.len(),
                    moved.len() == count,
                    all_on_map(self.players@, n),
                    t < swaps@.len(),
                    sub == swaps@.subrange(0, t as int),
                    (p1, p2) == swaps@[t as int],
                    forall|k: int|
                        0 <= k < count ==> #[trigger] self.players@[k] == (Player {
                            pos: if k < j {
                                after_swaps(moved[k].pos, swaps@.subrange(0, t + 1))
                            } else {
                                after_swaps(moved[k].pos, sub)
                            },
                            ..moved[k]
                        }),
                    forall|k: int| 0 <= k < count ==> (#[trigger] moved[k]).player_id == players0[k].player_id,
                    forall|a: int, b: int|
                        0 <= a < b < count ==> (#[trigger] players0[a]).player_id != (#[trigger] players0[b]).player_id,
                    p1.in_map(n),
                    p2.in_map(n),
                    j <= count,
                    out@.len() >= out2.len(),
                    out@.subrange(0, out2.len() as int) == out2,
                    forall|k: int| out2.len() <= k < out@.len() ==> (#[trigger] out@[k]).msg == Outgoing::Bare(MsgToPlayer::Swapped),
                    forall|k: int| 0 <= k < out2.len() ==> (#[trigger] out@[k]).msg is Envelope,
                    forall|id: u128| #[trigger] envelopes_for(out@, id) == envelopes_for(out2, id),
                    forall|k: int|
                        0 <= k < count ==> #[trigger] bares_for(out@, players0[k].player_id) == if k < j {
                            swap_count(moved[k].pos, swaps@.subrange(0, t + 1))
                        } else {
                            swap_count(moved[k].pos, sub)
                        },
                    all_to_players(out@, players0),
                decreases count - j,
            {
                proof {
                    lemma_after_swaps_step(moved[j as int].pos, swaps@, t as int);
                }
                let here = self.players[j].pos;
                let target = if here == p1 {
                    Some(p2)
                } else if here == p2 {
                    Some(p1)
                } else {
                    None
                };
                let ghost out0 = out@;
                if let Some(to) = target {
                    self.players[j].pos = to;
                    out.push(Outbound { to: Recipient::Player(self.players[j].player_id), msg: Outgoing::Bare(MsgToPlayer::Swapped) });
                    proof {
                        assert(out@ =~= out0.push(out@.last()));
                        lemma_all_to_players_push(out0, players0, out@.last(), j as int);
                        assert forall|id: u128| #[trigger] envelopes_for(out@, id) == envelopes_for(out2, id) by {
                            lemma_envelopes_push(out0, out@.last(), id);
                        }
                        assert(out@.subrange(0, out2.len() as int) =~= out0.subrange(0, out2.len() as int));
                    }
                }
                proof {
                    assert forall|k: int| 0 <= k < count implies #[trigger] bares_for(out@, players0[k].player_id)
                        == if k < j + 1 {
                        swap_count(moved[k].pos, swaps@.subrange(0, t + 1))
                    } else {
                        swap_count(moved[k].pos, sub)
                    } by {
                        lemma_after_swaps_step(moved[k].pos, swaps@, t as int);
                        if target is Some {
                            lemma_bares_push(out0, out@.last(), players0[k].player_id);
                            if k != j {
                                assert(players0[k].player_id != players0[j as int].player_id);
                            }
                        }
                    }
                }
                j = j + 1;
            }
            t = t + 1;
        }
        proof {
            assert(swaps@.subrange(0, swaps@.len() as int) =~= swaps@);
        }
        self.map.update_map(&mut self.active_swapshrooms);
        if self.turns < u32::MAX {
            self.turns = self.turns + 1;
        }
        self.pending = Vec::new();
        proof {
            assert(actions_traced(g0, trace));
            assert forall|k: int| 0 <= k < out@.len() && (#[trigger] out@[k]).msg is Bare implies out@[k].msg
                == Outgoing::Bare(MsgToPlayer::Swapped) by {
                if k < out2.len() {
                    assert(out@[k] == out@.subrange(0, out2.len() as int)[k]);
                }
            }
            assert forall|a: int, b: int| 0 <= a < b < out@.len() && (#[trigger] out@[a]).msg is Bare implies (
            #[trigger] out@[b]).msg is Bare by {
                if a < out2.len() {
                    assert(out@[a] == out@.subrange(0, out2.len() as int)[a]);
                }
            }
            assert forall|i: int, j: int| 0 <= i < j < self.players@.len() implies (#[trigger] self.players@[i]).player_id
                != (#[trigger] self.players@[j]).player_id by {
                assert(players0[i].player_id != players0[j].player_id);
            }
            assert forall|k: int| 0 <= k < count implies #[trigger] self.players@[k] == (Player {
                pos: after_swaps(moved_pos(s.cells, n, ps, s.moves, s.active, k), s.swaps),
                ..s.players[k]
            }) by {
                assert(moved[k].pos == moved_pos(s.cells, n, ps, s.moves, s.active, k));
            }
            assert(turn_result(g0, trace, *self, out@));
        }
        out
    }

    /// Every player has handed in an action for this turn.
    pub fn turn_complete(&self) -> (r: bool)
        ensures
            r == (self.running && self.pending@.len() == self.players@.len()),
    {
        self.running && self.pending.len() == self.players.len()
    }
}

pub proof fn lemma_pending_index_some(pending: Seq<(u128, Action)>, id: u128, j: int, k: int)
    requires
        0 <= j,
        pending_index(pending, id, j) == Some(k),
    ensures
        j <= k < pending.len(),
        pending[k].0 == id,
    decreases pending.len() - j,
{
    if j < pending.len() && pending[j].0 != id {
        lemma_pending_index_some(pending, id, j + 1, k);
    }
}

pub proof fn lemma_pending_index_none(pending: Seq<(u128, Action)>, id: u128, k: int)
    requires
        0 <= k,
        pending_index(pending, id, k) is None,
    ensures
        forall|j: int| k <= j < pending.len() ==> (#[trigger] pending[j]).0 != id,
    decreases pending.len() - k,
{
    if k < pending.len() {
        lemma_pending_index_none(pending, id, k + 1);
    }
}

} // verus!