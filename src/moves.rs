//! Two-phase movement: every player's wish is collected first, then all
//! moves are decided against the world as it stood, so the order in which
//! players are visited changes nothing.

use vstd::prelude::*;
use crate::cell::Cell;
use crate::map::{index_of, FarmMap, SwapPair};
use crate::message::{BlockedBy, MsgToPlayer};
use crate::plant::{Plant, Wallbush};
use crate::player::Player;
use crate::pos::{Direction, Pos};

verus! {

/// The positions of the players, in order.
pub open spec fn positions(players: Seq<Player>) -> Seq<Pos> {
    Seq::new(players.len(), |i: int| players[i].pos)
}

/// Where each player wants to be: movers the cell they step to, everyone
/// else the cell they stand on.
pub open spec fn wishes(ps: Seq<Pos>, mvs: Seq<Option<Direction>>, n: int) -> Seq<Pos> {
    Seq::new(ps.len(), |i: int| ps[i].next_spec(mvs[i], n))
}

/// How many of the first `upto` wishes are for `q`.
pub open spec fn count_wishes(w: Seq<Pos>, q: Pos, upto: int) -> nat
    decreases upto,
{
    if upto <= 0 {
        0
    } else {
        count_wishes(w, q, upto - 1) + if w[upto - 1] == q {
            1nat
        } else {
            0nat
        }
    }
}

/// `p` is one end of a registered active swapshroom pair.
pub open spec fn on_active(p: Pos, active: Seq<SwapPair>) -> bool {
    exists|k: int| 0 <= k < active.len() && ((#[trigger] active[k]).first == p || active[k].second == p)
}

/// The answer to player `i`, or `None`. A wallbush on the wanted cell blocks
/// whoever wants it, movers and players standing on it alike. For a mover:
/// a cell that someone else wants too blocks; so does standing on an active
/// swapshroom; otherwise the move happens. A player who stays put and is not
/// on a wallbush gets no answer.
pub open spec fn move_outcome(
    cells: Seq<Cell>,
    n: int,
    ps: Seq<Pos>,
    mvs: Seq<Option<Direction>>,
    active: Seq<SwapPair>,
    i: int,
) -> Option<MsgToPlayer> {
    let w = wishes(ps, mvs, n);
    let q = w[i];
    if cells[index_of(q, n)].plant is Wallbush {
        Some(MsgToPlayer::BlockedBy(BlockedBy::WallBush))
    } else if mvs[i] is None {
        None
    } else if count_wishes(w, q, w.len() as int) >= 2 {
        Some(MsgToPlayer::BlockedBy(BlockedBy::AnotherPlayer))
    } else if on_active(ps[i], active) {
        Some(MsgToPlayer::BlockedBy(BlockedBy::Swapshroom))
    } else {
        Some(MsgToPlayer::Moved)
    }
}

/// Where player `i` stands after the moves.
pub open spec fn moved_pos(
    cells: Seq<Cell>,
    n: int,
    ps: Seq<Pos>,
    mvs: Seq<Option<Direction>>,
    active: Seq<SwapPair>,
    i: int,
) -> Pos {
    if move_outcome(cells, n, ps, mvs, active, i) == Some(MsgToPlayer::Moved) {
        wishes(ps, mvs, n)[i]
    } else {
        ps[i]
    }
}

/// A wallbush that blocked a move loses one health, and is gone at zero.
pub open spec fn worn(c: Cell) -> Cell {
    match c.plant {
        Plant::Wallbush(w) => if w.health <= 1 {
            Cell { plant: Plant::Empty, ..c }
        } else {
            Cell { plant: Plant::Wallbush(Wallbush { health: (w.health - 1) as u8, ..w }), ..c }
        },
        _ => c,
    }
}

/// Some player wants cell index `c`: a mover the cell it steps to, anyone
/// else the cell it stands on.
pub open spec fn targeted(n: int, ps: Seq<Pos>, mvs: Seq<Option<Direction>>, c: int) -> bool {
    exists|i: int| 0 <= i < ps.len() && #[trigger] index_of(wishes(ps, mvs, n)[i], n) == c
}

/// The map after the moves: each wallbush that someone wanted, by running
/// into it or by standing on it, is worn once, however many wanted it.
pub open spec fn worn_cells(cells: Seq<Cell>, n: int, ps: Seq<Pos>, mvs: Seq<Option<Direction>>) -> Seq<
    Cell,
> {
    Seq::new(
        cells.len(),
        |c: int|
            if cells[c].plant is Wallbush && targeted(n, ps, mvs, c) {
                worn(cells[c])
            } else {
                cells[c]
            },
    )
}

/// Every player stands on the map.
pub open spec fn all_on_map(players: Seq<Player>, n: int) -> bool {
    forall|i: int| 0 <= i < players.len() ==> (#[trigger] players[i]).pos.in_map(n)
}

/// Collection phase: the cell each player wants this turn.
pub fn action_move_collection(map: &FarmMap, players: &Vec<Player>, moves: &Vec<Option<Direction>>) -> (r: Vec<
    Pos,
>)
    requires
        map.wf(),
        moves@.len() == players@.len(),
    ensures
        r@ == wishes(positions(players@), moves@, map.size as int),
        all_on_map(players@, map.size as int) ==> forall|k: int|
            0 <= k < r@.len() ==> (#[trigger] r@[k]).in_map(map.size as int),
{
    let mut r: Vec<Pos> = Vec::new();
    let mut i: usize = 0;
    while i < players.len()
        invariant
            map.wf(),
            moves@.len() == players@.len(),
            i <= players@.len(),
            r@ =~= wishes(positions(players@), moves@, map.size as int).subrange(0, i as int),
        decreases players@.len() - i,
    {
        let p = players[i].pos.get_next_pos_on_map(moves[i], map.size as i32);
        r.push(p);
        i = i + 1;
    }
    proof {
        if all_on_map(players@, map.size as int) {
            assert forall|k: int| 0 <= k < r@.len() implies (#[trigger] r@[k]).in_map(map.size as int) by {
                assert(players@[k].pos.in_map(map.size as int));
                if moves@[k] is Some {
                    crate::pos::lemma_next_stays_on_map(players@[k].pos, moves@[k]->0, map.size as i32);
                }
            }
        }
    }
    r
}

fn count_wishes_of(w: &Vec<Pos>, q: Pos) -> (r: usize)
    ensures
        r == count_wishes(w@, q, w@.len() as int),
{
    let mut c: usize = 0;
    let mut j: usize = 0;
    while j < w.len()
        invariant
            j <= w@.len(),
            c == count_wishes(w@, q, j as int),
            c <= j,
        decreases w@.len() - j,
    {
        if w[j] == q {
            c = c + 1;
        }
        j = j + 1;
    }
    c
}

fn is_on_active(p: Pos, active: &Vec<SwapPair>) -> (r: bool)
    ensures
        r == on_active(p, active@),
{
    let mut k: usize = 0;
    while k < active.len()
        invariant
            k <= active@.len(),
            forall|j: int| 0 <= j < k ==> !((#[trigger] active@[j]).first == p || active@[j].second == p),
        decreases active@.len() - k,
    {
        if active[k].first == p || active[k].second == p {
            return true;
        }
        k = k + 1;
    }
    false
}

fn wear(c: Cell) -> (r: Cell)
    requires
        c.wf(),
    ensures
        r == worn(c),
        r.wf(),
{
    match c.plant {
        Plant::Wallbush(w) => {
            if w.health <= 1 {
                Cell { ground: c.ground, plant: Plant::Empty }
            } else {
                Cell { ground: c.ground, plant: Plant::Wallbush(Wallbush { growth: w.growth, health: w.health - 1 }) }
            }
        },
        _ => c,
    }
}

/// Execution phase: decides every move against the world as it stood (see
/// `move_outcome`), moves the players, and wears the wallbushes that were run
/// into or stood on. The answer for each player is at its index (see
/// `move_outcome`).
pub fn action_move_execution(
    map: &mut FarmMap,
    players: &mut Vec<Player>,
    moves: &Vec<Option<Direction>>,
    active: &Vec<SwapPair>,
) -> (r: Vec<Option<MsgToPlayer>>)
    requires
        old(map).wf(),
        moves@.len() == old(players)@.len(),
        all_on_map(old(players)@, old(map).size as int),
    ensures
        final(map).wf(),
        final(map).size == old(map).size,
        final(players)@.len() == old(players)@.len(),
        all_on_map(final(players)@, old(map).size as int),
        r@.len() == old(players)@.len(),
        ({
            let n = old(map).size as int;
            let ps = positions(old(players)@);
            &&& final(map).cells@ == worn_cells(old(map).cells@, n, ps, moves@)
            &&& forall|i: int| 0 <= i < r@.len() ==> #[trigger] r@[i] == move_outcome(old(map).cells@, n, ps, moves@, active@, i)
            &&& forall|i: int|
                0 <= i < r@.len() ==> (#[trigger] final(players)@[i]) == (Player {
                    pos: moved_pos(old(map).cells@, n, ps, moves@, active@, i),
                    ..old(players)@[i]
                })
        }),
{
    let ghost n = map.size as int;
    let ghost ps = positions(players@);
    let ghost cells0 = map.cells@;
    let ghost players0 = players@;
    let wanted = action_move_collection(map, players, moves);
    // decide every move against the world as it stood
    let mut outcomes: Vec<Option<MsgToPlayer>> = Vec::new();
    let mut i: usize = 0;
    while i < players.len()
        invariant
            map.wf(),
            map.cells@ == cells0,
            n == map.size,
            players@ == players0,
            ps == positions(players0),
            moves@.len() == players@.len(),
            wanted@ == wishes(ps, moves@, n),
            all_on_map(players@, n),
            i <= players@.len(),
            outcomes@.len() == i,
            forall|k: int| 0 <= k < wanted@.len() ==> (#[trigger] wanted@[k]).in_map(n),
            forall|k: int| 0 <= k < i ==> #[trigger] outcomes@[k] == move_outcome(cells0, n, ps, moves@, active@, k),
        decreases players@.len() - i,
    {
        let q = wanted[i];
        let cell = map.get_cell(&q);
        let blocked_by_wall = match cell.plant {
            Plant::Wallbush(_) => true,
            _ => false,
        };
        let m = if blocked_by_wall {
            Some(MsgToPlayer::BlockedBy(BlockedBy::WallBush))
        } else if moves[i].is_none() {
            None
        } else if count_wishes_of(&wanted, q) >= 2 {
            Some(MsgToPlayer::BlockedBy(BlockedBy::AnotherPlayer))
        } else if is_on_active(players[i].pos, active) {
            Some(MsgToPlayer::BlockedBy(BlockedBy::Swapshroom))
        } else {
            Some(MsgToPlayer::Moved)
        };
        outcomes.push(m);
        i = i + 1;
    }
    // wear each wallbush that was run into, once
    let mut i: usize = 0;
    while i < players.len()
        invariant
            map.wf(),
            n == map.size,
            players@ == players0,
            moves@.len() == players@.len(),
            wanted@ == wishes(ps, moves@, n),
            ps == positions(players0),
            all_on_map(players@, n),
            i <= players@.len(),
            map.cells@.len() == cells0.len(),
            forall|k: int| 0 <= k < wanted@.len() ==> (#[trigger] wanted@[k]).in_map(n),
            forall|c: int|
                0 <= c < cells0.len() ==> #[trigger] map.cells@[c] == if cells0[c].plant is Wallbush && exists|j: int|
                    0 <= j < i && #[trigger] index_of(wanted@[j], n) == c {
                    worn(cells0[c])
                } else {
                    cells0[c]
                },
        decreases players@.len() - i,
    {
        {
            let q = wanted[i];
            let qi = map.index(&q);
            let mut seen = false;
            let mut j: usize = 0;
            while j < i
                invariant
                    j <= i,
                    i < wanted@.len(),
                    n == map.size,
                    1 <= n <= crate::map::MAX_MAP_SIZE,
                    q == wanted@[i as int],
                    q.in_map(n),
                    qi == index_of(q, n),
                    forall|k: int| 0 <= k < wanted@.len() ==> (#[trigger] wanted@[k]).in_map(n),
                    moves@.len() == wanted@.len(),
                    seen == exists|k: int| 0 <= k < j && #[trigger] index_of(wanted@[k], n) == qi,
                decreases i - j,
            {
                proof {
                    crate::map::lemma_index_injective(wanted@[j as int], q, n);
                }
                if wanted[j] == q {
                    seen = true;
                }
                j = j + 1;
            }
            if !seen {
                let c = map.cells[qi];
                if let Plant::Wallbush(_) = c.plant {
                    map.cells.set(qi, wear(c));
                }
            }
        }
        i = i + 1;
    }
    // move the players
    let mut i: usize = 0;
    while i < players.len()
        invariant
            players@.len() == players0.len(),
            moves@.len() == players0.len(),
            i <= players0.len(),
            n == old(map).size,
            wanted@ == wishes(ps, moves@, n),
            ps == positions(players0),
            outcomes@.len() == players0.len(),
            forall|k: int|
                0 <= k < players0.len() ==> #[trigger] outcomes@[k] == move_outcome(cells0, n, ps, moves@, active@, k),
            forall|k: int|
                0 <= k < i ==> (#[trigger] players@[k]) == (Player {
                    pos: moved_pos(cells0, n, ps, moves@, active@, k),
                    ..players0[k]
                }),
            forall|k: int| i <= k < players0.len() ==> #[trigger] players@[k] == players0[k],
        decreases players0.len() - i,
    {
        if outcomes[i] == Some(MsgToPlayer::Moved) {
            proof {
                assert(moves@[i as int] is Some);
            }
            let q = wanted[i];
            players[i].pos = q;
        }
        i = i + 1;
    }
    proof {
        assert(map.cells@ =~= worn_cells(cells0, n, ps, moves@)) by {
            assert forall|c: int| 0 <= c < cells0.len() implies map.cells@[c] == worn_cells(cells0, n, ps, moves@)[c] by {
                if (exists|j: int| 0 <= j < players0.len() && #[trigger] index_of(wanted@[j], n) == c) {
                    let j = choose|j: int| 0 <= j < players0.len() && #[trigger] index_of(wanted@[j], n) == c;
                    assert(index_of(wishes(ps, moves@, n)[j], n) == c);
                }
                if targeted(n, ps, moves@, c) {
                    let j = choose|j: int| 0 <= j < ps.len() && #[trigger] index_of(wishes(ps, moves@, n)[j], n) == c;
                    assert(index_of(wanted@[j], n) == c);
                }
            }
        }
        assert forall|k: int| 0 <= k < players@.len() implies (#[trigger] players@[k]).pos.in_map(n) by {
            if moves@[k] is Some {
                crate::pos::lemma_next_stays_on_map(players0[k].pos, moves@[k]->0, n as i32);
            }
        }
    }
    outcomes
}

/// After the moves no two players share a cell, provided they did not before
/// and no mover steps onto the cell of another mover. That last case is left
/// out because a mover who is blocked stays where it stood, so whoever
/// followed it onto its cell would share it.
pub proof fn lemma_moves_keep_players_apart(
    cells: Seq<Cell>,
    n: int,
    ps: Seq<Pos>,
    mvs: Seq<Option<Direction>>,
    active: Seq<SwapPair>,
)
    requires
        n >= 1,
        mvs.len() == ps.len(),
        cells.len() == n * n,
        forall|i: int| 0 <= i < ps.len() ==> (#[trigger] ps[i]).in_map(n),
        forall|i: int, j: int| 0 <= i < j < ps.len() ==> ps[i] != ps[j],
        forall|i: int, j: int|
            0 <= i < ps.len() && 0 <= j < ps.len() && i != j && mvs[i] is Some && mvs[j] is Some
                ==> wishes(ps, mvs, n)[i] != ps[j],
    ensures
        forall|i: int, j: int|
            0 <= i < j < ps.len() ==> moved_pos(cells, n, ps, mvs, active, i) != moved_pos(
                cells,
                n,
                ps,
                mvs,
                active,
                j,
            ),
{
    let w = wishes(ps, mvs, n);
    assert forall|i: int, j: int| 0 <= i < j < ps.len() implies moved_pos(cells, n, ps, mvs, active, i)
        != moved_pos(cells, n, ps, mvs, active, j) by {
        let pi = moved_pos(cells, n, ps, mvs, active, i);
        let pj = moved_pos(cells, n, ps, mvs, active, j);
        let mi = move_outcome(cells, n, ps, mvs, active, i) == Some(MsgToPlayer::Moved);
        let mj = move_outcome(cells, n, ps, mvs, active, j) == Some(MsgToPlayer::Moved);
        if mi && pi == pj {
            // i moved alone to its wish; j wants either that cell too or its own
            lemma_two_wishes(w, i, j, w[i]);
            if !mj {
                if mvs[j] is None {
                    assert(w[j] == ps[j]);
                }
            }
        }
        if mj && pi == pj {
            lemma_two_wishes(w, i, j, w[j]);
            if !mi {
                if mvs[i] is None {
                    assert(w[i] == ps[i]);
                }
            }
        }
    }
}

/// Two different wishes for `q` make its count at least two.
proof fn lemma_two_wishes(w: Seq<Pos>, i: int, j: int, q: Pos)
    requires
        0 <= i < j < w.len(),
    ensures
        w[i] == q && w[j] == q ==> count_wishes(w, q, w.len() as int) >= 2,
{
    if w[i] == q && w[j] == q {
        lemma_count_from(w, q, i, j, w.len() as int);
    }
}

proof fn lemma_count_from(w: Seq<Pos>, q: Pos, i: int, j: int, upto: int)
    requires
        0 <= i < j < upto <= w.len(),
        w[i] == q,
        w[j] == q,
    ensures
        count_wishes(w, q, upto) >= 2,
    decreases upto,
{
    if upto - 1 > j {
        lemma_count_from(w, q, i, j, upto - 1);
    } else {
        lemma_count_one(w, q, i, j);
    }
}

proof fn lemma_count_one(w: Seq<Pos>, q: Pos, i: int, upto: int)
    requires
        0 <= i < upto <= w.len(),
        w[i] == q,
    ensures
        count_wishes(w, q, upto) >= 1,
    decreases upto,
{
    if upto - 1 > i {
        lemma_count_one(w, q, i, upto - 1);
    }
}

} // verus!
