//! Properties that relate several actions.

use vstd::prelude::*;
use crate::actions::{affordable, harvest_rule, pay, sprout, till_spec, trade_spec, triggered_pair};
use crate::cell::Cell;
use crate::ground::Ground;
use crate::harvest::HARVEST_KINDS;
use crate::message::MsgToPlayer;
use crate::plant::Plant;
use crate::player::sat_add;
use crate::seed::{recipe, Seed, SEED_KINDS};
use crate::map::{index_of, SwapPair};
use crate::moves::{count_wishes, move_outcome, moved_pos, targeted, wishes, worn_cells};
use crate::pos::{Direction, Pos};
use crate::game::{lemma_pending_index_none, lemma_pending_index_some, pending_index, pending_of, Action, Game};
use crate::actions::sunflower_fine;
use crate::player::sat_sub;
use crate::plant::{growth_of, max_growth};

verus! {

/// Tilling twice gives back the cell, for dirt or tiles that are bare or hold
/// a swapshroom.
pub proof fn lemma_till_involution(c: Cell)
    requires
        c.ground == Ground::Dirt || c.ground == Ground::Tiled,
        c.plant == Plant::Empty || c.plant is Swapshroom,
    ensures
        till_spec(c) is Some,
        till_spec(till_spec(c)->0) == Some(c),
{
}

/// The plant that planting `seed` leaves on the cell itself: a swapshroom
/// takes its pair id, a sunflower its rank.
pub open spec fn planted(seed: Seed, pair_id: u32, rank: u8) -> Plant {
    match seed {
        Seed::Swapshroom => Plant::Swapshroom(crate::plant::Swapshroom { growth: 0, pair_id, active: false }),
        Seed::Sunflower => Plant::Sunflower(crate::plant::Sunflower { growth: 0, rank }),
        _ => sprout(seed),
    }
}

/// A plant harvested the turn it was planted, at growth zero, gives nothing
/// and is gone, whatever the seed; being inactive, a fresh swapshroom sets off
/// no swap.
pub proof fn lemma_fresh_plant_yields_nothing(
    seed: Seed,
    pair_id: u32,
    rank: u8,
    max_rank: u8,
    ground: Ground,
    pairs: Seq<SwapPair>,
    n: int,
)
    ensures
        harvest_rule(planted(seed, pair_id, rank), max_rank) == (
            Plant::Empty,
            None::<(crate::harvest::Harvest, u32, u32)>,
            false,
        ),
        triggered_pair(Cell { ground, plant: planted(seed, pair_id, rank) }, pairs, n) is None,
{
}

proof fn lemma_pay_twice(h: Seq<u32>, seed: Seed, a: int, b: int)
    requires
        h.len() == HARVEST_KINDS,
        a >= 0,
        b >= 0,
        affordable(h, recipe(seed), a + b),
    ensures
        affordable(h, recipe(seed), a),
        affordable(pay(h, recipe(seed), a), recipe(seed), b),
        pay(pay(h, recipe(seed), a), recipe(seed), b) == pay(h, recipe(seed), a + b),
{
    reveal_with_fuel(pay, 3);
    let r = recipe(seed);
    assert forall|k: int| 0 <= k < r.len() implies h[crate::harvest::harvest_slot(#[trigger] r[k].0)] >= r[k].1 * a by {
        assert(h[crate::harvest::harvest_slot(r[k].0)] >= r[k].1 * (a + b));
        assert(r[k].1 * (a + b) >= r[k].1 * a) by (nonlinear_arith)
            requires
                b >= 0,
                r[k].1 >= 0,
        ;
    }
    crate::actions::lemma_recipes_distinct(seed);
    if r.len() >= 1 {
        let i0 = crate::harvest::harvest_slot(r[0].0);
        let c0 = r[0].1 as int;
        vstd::arithmetic::mul::lemma_mul_is_distributive_add(c0, a, b);
        assert(h[i0] >= c0 * (a + b));
        assert(c0 * b >= 0) by (nonlinear_arith)
            requires
                c0 >= 0,
                b >= 0,
        ;
        if r.len() == 2 {
            let i1 = crate::harvest::harvest_slot(r[1].0);
            let c1 = r[1].1 as int;
            vstd::arithmetic::mul::lemma_mul_is_distributive_add(c1, a, b);
            assert(h[i1] >= c1 * (a + b));
            assert(c1 * b >= 0) by (nonlinear_arith)
                requires
                    c1 >= 0,
                    b >= 0,
            ;
            assert(r[0].0 != r[1].0);
            assert(i0 != i1);
            assert(r.drop_first().drop_first() =~= seq![]);
            let pa = h.update(i0, (h[i0] - c0 * a) as u32).update(i1, (h[i1] - c1 * a) as u32);
            assert(pay(h, r, a) == pay(h.update(i0, (h[i0] - c0 * a) as u32), r.drop_first(), a));
            assert(r.drop_first()[0] == r[1]);
            assert(pay(h, r, a) == pa);
            assert(pay(h, r, a + b) == h.update(i0, (h[i0] - c0 * (a + b)) as u32).update(i1, (h[i1] - c1 * (a + b)) as u32));
            assert(pay(pa, r, b) == pa.update(i0, (pa[i0] - c0 * b) as u32).update(i1, (pa[i1] - c1 * b) as u32));
            assert(pay(pa, r, b) =~= pay(h, r, a + b));
        } else {
            assert(r.drop_first() =~= seq![]);
            let pa = h.update(i0, (h[i0] - c0 * a) as u32);
            assert(pay(h, r, a) == pa);
            assert(pay(pa, r, b) == pa.update(i0, (pa[i0] - c0 * b) as u32));
            assert(pay(pa, r, b) =~= pay(h, r, a + b));
        }
    }
}

/// Buying `a` seeds and then `b` more is buying `a + b` at once, when the
/// whole of it is affordable from the start.
pub proof fn lemma_trade_twice(h: Seq<u32>, s: Seq<u32>, seed: Seed, a: u32, b: u32)
    requires
        h.len() == HARVEST_KINDS,
        s.len() == SEED_KINDS,
        a > 0,
        b > 0,
        a + b <= u32::MAX,
        affordable(h, recipe(seed), a + b),
    ensures
        ({
            let first = trade_spec(h, s, seed, a);
            let second = trade_spec(first.0, first.1, seed, b);
            let once = trade_spec(h, s, seed, (a + b) as u32);
            recipe(seed).len() > 0 ==> {
                &&& first.2 == MsgToPlayer::Traded
                &&& second.2 == MsgToPlayer::Traded
                &&& second.0 == once.0
                &&& second.1 == once.1
            }
        }),
{
    lemma_pay_twice(h, seed, a as int, b as int);
    let slot = crate::seed::seed_slot(seed);
    assert(sat_add(sat_add(s[slot] as int, a as int) as int, b as int) == sat_add(s[slot] as int, a + b));
    let first = trade_spec(h, s, seed, a);
    assert(first.1.update(slot, sat_add(s[slot] as int, a + b)) =~= s.update(slot, sat_add(s[slot] as int, a + b)));
}

/// Buying one seed `times` times over, from harvests `h` and seeds `s`.
pub open spec fn trade_repeat(h: Seq<u32>, s: Seq<u32>, seed: Seed, times: nat) -> (Seq<u32>, Seq<u32>)
    decreases times,
{
    if times == 0 {
        (h, s)
    } else {
        let before = trade_repeat(h, s, seed, (times - 1) as nat);
        let t = trade_spec(before.0, before.1, seed, 1);
        (t.0, t.1)
    }
}

/// Trading for one seed `v` times gives the same harvests and seeds as one
/// trade of volume `v`, provided the whole price of `v` seeds is on hand.
pub proof fn lemma_repeated_trade(h: Seq<u32>, s: Seq<u32>, seed: Seed, v: u32)
    requires
        h.len() == HARVEST_KINDS,
        s.len() == SEED_KINDS,
        v > 0,
        affordable(h, recipe(seed), v as int),
    ensures
        trade_repeat(h, s, seed, v as nat) == (trade_spec(h, s, seed, v).0, trade_spec(h, s, seed, v).1),
    decreases v,
{
    if v > 1 {
        lemma_pay_twice(h, seed, (v - 1) as int, 1);
        lemma_repeated_trade(h, s, seed, (v - 1) as u32);
        if recipe(seed).len() > 0 {
            lemma_trade_twice(h, s, seed, (v - 1) as u32, 1);
        }
    } else {
        assert(trade_repeat(h, s, seed, 0) == (h, s));
    }
}

/// Each player's position paired with their move (`None` for no move).
pub open spec fn plan(ps: Seq<Pos>, mvs: Seq<Option<Direction>>) -> Seq<(Pos, Option<Direction>)> {
    Seq::new(ps.len(), |i: int| (ps[i], mvs[i]))
}

/// How many entries of `s` wish for `q` on a map of side `n`.
pub open spec fn count_plan(s: Seq<(Pos, Option<Direction>)>, n: int, q: Pos) -> nat
    decreases s.len(),
{
    if s.len() == 0 {
        0
    } else {
        count_plan(s.drop_last(), n, q) + if s.last().0.next_spec(s.last().1, n) == q {
            1nat
        } else {
            0nat
        }
    }
}

proof fn lemma_count_remove(s: Seq<(Pos, Option<Direction>)>, n: int, q: Pos, j: int)
    requires
        0 <= j < s.len(),
    ensures
        count_plan(s, n, q) == count_plan(s.remove(j), n, q) + if s[j].0.next_spec(s[j].1, n) == q {
            1nat
        } else {
            0nat
        },
    decreases s.len(),
{
    if j == s.len() - 1 {
        assert(s.remove(j) =~= s.drop_last());
    } else {
        lemma_count_remove(s.drop_last(), n, q, j);
        assert(s.remove(j).drop_last() =~= s.drop_last().remove(j));
        assert(s.remove(j).last() == s.last());
    }
}

proof fn lemma_count_perm(a: Seq<(Pos, Option<Direction>)>, b: Seq<(Pos, Option<Direction>)>, n: int, q: Pos)
    requires
        a.to_multiset() == b.to_multiset(),
    ensures
        count_plan(a, n, q) == count_plan(b, n, q),
    decreases a.len(),
{
    vstd::seq_lib::to_multiset_len(a);
    vstd::seq_lib::to_multiset_len(b);
    if a.len() > 0 {
        let x = a.last();
        vstd::seq_lib::to_multiset_contains(a, x);
        vstd::seq_lib::to_multiset_contains(b, x);
        assert(a.contains(x)) by {
            assert(a[a.len() - 1] == x);
        }
        let j = choose|j: int| 0 <= j < b.len() && b[j] == x;
        vstd::seq_lib::to_multiset_remove(a, a.len() - 1);
        vstd::seq_lib::to_multiset_remove(b, j);
        assert(a.remove(a.len() - 1) =~= a.drop_last());
        lemma_count_perm(a.drop_last(), b.remove(j), n, q);
        lemma_count_remove(b, n, q, j);
    }
}

proof fn lemma_count_wishes_is_count_plan(ps: Seq<Pos>, mvs: Seq<Option<Direction>>, n: int, q: Pos, k: int)
    requires
        ps.len() == mvs.len(),
        0 <= k <= ps.len(),
    ensures
        count_wishes(wishes(ps, mvs, n), q, k) == count_plan(plan(ps, mvs).subrange(0, k), n, q),
    decreases k,
{
    if k > 0 {
        lemma_count_wishes_is_count_plan(ps, mvs, n, q, k - 1);
        assert(plan(ps, mvs).subrange(0, k).drop_last() =~= plan(ps, mvs).subrange(0, k - 1));
    }
}

/// Moves do not depend on the order in which players are listed: two lists
/// of (position, move) that hold the same entries, as a multiset, give the
/// same answer and the same new position to equal entries, and wear the map
/// alike.
pub proof fn lemma_moves_ignore_order(
    cells: Seq<Cell>,
    n: int,
    ps1: Seq<Pos>,
    mvs1: Seq<Option<Direction>>,
    ps2: Seq<Pos>,
    mvs2: Seq<Option<Direction>>,
    active: Seq<SwapPair>,
    i: int,
    j: int,
)
    requires
        ps1.len() == mvs1.len(),
        ps2.len() == mvs2.len(),
        plan(ps1, mvs1).to_multiset() == plan(ps2, mvs2).to_multiset(),
        0 <= i < ps1.len(),
        0 <= j < ps2.len(),
        ps1[i] == ps2[j],
        mvs1[i] == mvs2[j],
    ensures
        move_outcome(cells, n, ps1, mvs1, active, i) == move_outcome(cells, n, ps2, mvs2, active, j),
        moved_pos(cells, n, ps1, mvs1, active, i) == moved_pos(cells, n, ps2, mvs2, active, j),
        worn_cells(cells, n, ps1, mvs1) == worn_cells(cells, n, ps2, mvs2),
{
    let p1 = plan(ps1, mvs1);
    let p2 = plan(ps2, mvs2);
    vstd::seq_lib::to_multiset_len(p1);
    vstd::seq_lib::to_multiset_len(p2);
    let q = wishes(ps1, mvs1, n)[i];
    assert(q == wishes(ps2, mvs2, n)[j]);
    lemma_count_wishes_is_count_plan(ps1, mvs1, n, q, ps1.len() as int);
    lemma_count_wishes_is_count_plan(ps2, mvs2, n, q, ps2.len() as int);
    assert(p1.subrange(0, ps1.len() as int) =~= p1);
    assert(p2.subrange(0, ps2.len() as int) =~= p2);
    lemma_count_perm(p1, p2, n, q);
    assert forall|c: int| targeted(n, ps1, mvs1, c) <==> targeted(n, ps2, mvs2, c) by {
        if targeted(n, ps1, mvs1, c) {
            let k = choose|k: int| 0 <= k < ps1.len() && #[trigger] index_of(wishes(ps1, mvs1, n)[k], n) == c;
            vstd::seq_lib::to_multiset_contains(p1, p1[k]);
            vstd::seq_lib::to_multiset_contains(p2, p1[k]);
            assert(p1.contains(p1[k]));
            let l = choose|l: int| 0 <= l < p2.len() && p2[l] == p1[k];
            assert(index_of(wishes(ps2, mvs2, n)[l], n) == c);
        }
        if targeted(n, ps2, mvs2, c) {
            let k = choose|k: int| 0 <= k < ps2.len() && #[trigger] index_of(wishes(ps2, mvs2, n)[k], n) == c;
            vstd::seq_lib::to_multiset_contains(p1, p2[k]);
            vstd::seq_lib::to_multiset_contains(p2, p2[k]);
            assert(p2.contains(p2[k]));
            let l = choose|l: int| 0 <= l < p1.len() && p1[l] == p2[k];
            assert(index_of(wishes(ps1, mvs1, n)[l], n) == c);
        }
    }
    assert(worn_cells(cells, n, ps1, mvs1) =~= worn_cells(cells, n, ps2, mvs2));
}

/// In every game state the library keeps (`Game::wf`, which every method
/// preserves), each plant's growth lies between zero and its kind's cap.
pub proof fn lemma_growth_capped(g: &Game, i: int)
    requires
        g.wf(),
        0 <= i < g.map.cells@.len(),
    ensures
        0 <= growth_of(g.map.cells@[i].plant) <= max_growth(g.map.cells@[i].plant),
{
    assert(g.map.cells@[i].wf());
}

/// The sunflower fine never takes points below zero: it takes the full fine
/// when there are enough points and leaves zero otherwise.
pub proof fn lemma_fine_floors_at_zero(points: u32)
    ensures
        sat_sub(points as int, sunflower_fine()) == if points >= sunflower_fine() {
            points - sunflower_fine()
        } else {
            0
        },
        sat_sub(points as int, sunflower_fine()) >= 0,
{
}

/// Each player has at most one entry in `p`.
pub open spec fn distinct_ids(p: Seq<(u128, Action)>) -> bool {
    forall|a: int, b: int| 0 <= a < b < p.len() ==> (#[trigger] p[a]).0 != (#[trigger] p[b]).0
}

proof fn lemma_pending_of_contains(p: Seq<(u128, Action)>, id: u128, x: Action)
    requires
        distinct_ids(p),
    ensures
        pending_of(p, id) == Some(x) <==> p.contains((id, x)),
{
    match pending_index(p, id, 0) {
        Some(k) => {
            lemma_pending_index_some(p, id, 0, k);
            if p.contains((id, x)) {
                let m = choose|m: int| 0 <= m < p.len() && p[m] == (id, x);
                if m != k {
                    if m < k {
                        assert(p[m].0 != p[k].0);
                    } else {
                        assert(p[k].0 != p[m].0);
                    }
                }
            }
            if pending_of(p, id) == Some(x) {
                assert(p[k] == (id, x));
            }
        },
        None => {
            lemma_pending_index_none(p, id, 0);
        },
    }
}

/// The action taken for a player does not depend on the order in which the
/// pending actions were handed in: two lists of pending actions with the same
/// entries, each player at most once, give every player the same action. The
/// turn (`Game::resolve_turn`) reads the pending actions only through
/// `pending_of`, so its outcome does not depend on that order either.
pub proof fn lemma_pending_order(p1: Seq<(u128, Action)>, p2: Seq<(u128, Action)>, id: u128)
    requires
        distinct_ids(p1),
        distinct_ids(p2),
        p1.to_multiset() == p2.to_multiset(),
    ensures
        pending_of(p1, id) == pending_of(p2, id),
{
    if let Some(x) = pending_of(p1, id) {
        lemma_pending_of_contains(p1, id, x);
        lemma_pending_of_contains(p2, id, x);
        vstd::seq_lib::to_multiset_contains(p1, (id, x));
        vstd::seq_lib::to_multiset_contains(p2, (id, x));
    } else if let Some(y) = pending_of(p2, id) {
        lemma_pending_of_contains(p1, id, y);
        lemma_pending_of_contains(p2, id, y);
        vstd::seq_lib::to_multiset_contains(p1, (id, y));
        vstd::seq_lib::to_multiset_contains(p2, (id, y));
    }
}

} // verus!
