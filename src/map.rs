use vstd::prelude::*;
use rand::rngs::SmallRng;
use crate::cell::Cell;
use crate::chance::shuffle_cells;
use crate::ground::Ground;
use crate::plant::{grow_spec, Bush, Cactus, Cane, Plant, Pumpkin, Swapshroom, Wheat};
use crate::pos::Pos;

verus! {

/// The largest map side: its cell count must fit an `i32`.
pub const MAX_MAP_SIZE: usize = 46340;

/// A square grid of cells on a torus, stored row by row.
pub struct FarmMap {
    pub size: usize,
    pub cells: Vec<Cell>,
}

/// Two swapshrooms of one pair, both ripe and active.
#[derive(Debug, Clone, Copy, PartialEq, Eq, Structural)]
pub struct SwapPair {
    pub pair_id: u32,
    pub first: Pos,
    pub second: Pos,
}

/// The row-major index of `p` on a map of side `n`.
pub open spec fn index_of(p: Pos, n: int) -> int {
    p.y * n + p.x
}

/// The position of index `i` on a map of side `n`.
pub open spec fn pos_of(i: int, n: int) -> Pos {
    Pos { x: (i % n) as i32, y: (i / n) as i32 }
}

/// The four neighbours of index `i` on a torus of side `n`: right, left,
/// below, above.
pub open spec fn neighbour(i: int, n: int, k: int) -> int {
    let x = i % n;
    let y = i / n;
    if k == 0 {
        y * n + (x + 1) % n
    } else if k == 1 {
        y * n + (x + n - 1) % n
    } else if k == 2 {
        ((y + 1) % n) * n + x
    } else {
        ((y + n - 1) % n) * n + x
    }
}

/// Some neighbour of `i` satisfies `f`.
pub open spec fn any_neighbour(cells: Seq<Cell>, n: int, i: int, f: spec_fn(Cell) -> bool) -> bool {
    f(cells[neighbour(i, n, 0)]) || f(cells[neighbour(i, n, 1)]) || f(cells[neighbour(i, n, 2)]) || f(
        cells[neighbour(i, n, 3)],
    )
}

/// Some of the first `k` neighbours of `i` satisfies `f`.
spec fn any_of_first(cells: Seq<Cell>, n: int, i: int, k: int, f: spec_fn(Cell) -> bool) -> bool {
    (k > 0 && f(cells[neighbour(i, n, 0)])) || (k > 1 && f(cells[neighbour(i, n, 1)])) || (k > 2 && f(
        cells[neighbour(i, n, 2)],
    )) || (k > 3 && f(cells[neighbour(i, n, 3)]))
}

pub open spec fn is_water(c: Cell) -> bool {
    c.ground == Ground::Water
}

pub open spec fn is_tree(c: Cell) -> bool {
    c.plant is Tree
}

/// A pumpkin that can be harvested.
pub open spec fn is_ripe_pumpkin(c: Cell) -> bool {
    match c.plant {
        Plant::Pumpkin(k) => k.growth >= Pumpkin::GROWTH_TO_PUMPKINSEED,
        _ => false,
    }
}

/// How many of the four neighbours of `i` are ripe pumpkins.
pub open spec fn ripe_neighbours(cells: Seq<Cell>, n: int, i: int) -> int {
    (if is_ripe_pumpkin(cells[neighbour(i, n, 0)]) { 1int } else { 0 })
        + (if is_ripe_pumpkin(cells[neighbour(i, n, 1)]) { 1int } else { 0 })
        + (if is_ripe_pumpkin(cells[neighbour(i, n, 2)]) { 1int } else { 0 })
        + (if is_ripe_pumpkin(cells[neighbour(i, n, 3)]) { 1int } else { 0 })
}

/// Cell `i` after one turn of growth, read from the map as it stood before
/// the turn: empty dirt sprouts wheat, every plant grows twice as fast next
/// to water.
pub open spec fn grown_cell(cells: Seq<Cell>, n: int, i: int) -> Cell {
    let c = cells[i];
    if c.ground == Ground::Dirt && c.plant == Plant::Empty {
        Cell { ground: Ground::Dirt, plant: Plant::Wheat(Wheat { growth: 0 }) }
    } else {
        let rate: u8 = if any_neighbour(cells, n, i, |d: Cell| is_water(d)) { 2 } else { 1 };
        Cell {
            ground: c.ground,
            plant: grow_spec(
                c.plant,
                rate,
                any_neighbour(cells, n, i, |d: Cell| is_tree(d)),
                ripe_neighbours(cells, n, i) as u8,
            ),
        }
    }
}

/// The pair id of a ripe swapshroom that is not active yet.
pub open spec fn ready_pair(c: Cell) -> Option<u32> {
    match c.plant {
        Plant::Swapshroom(s) => if s.growth >= Swapshroom::GROWTH_TO_BE_READY && !s.active {
            Some(s.pair_id)
        } else {
            None
        },
        _ => None,
    }
}

/// The first index from `j` on that holds a ready swapshroom of pair `id`.
pub open spec fn first_partner(cells: Seq<Cell>, id: u32, j: int) -> Option<int>
    decreases cells.len() - j,
{
    if j < 0 || j >= cells.len() {
        None
    } else if ready_pair(cells[j]) == Some(id) {
        Some(j)
    } else {
        first_partner(cells, id, j + 1)
    }
}

/// The cell with its swapshroom switched on.
pub open spec fn activated(c: Cell) -> Cell {
    match c.plant {
        Plant::Swapshroom(s) => Cell { plant: Plant::Swapshroom(Swapshroom { active: true, ..s }), ..c },
        _ => c,
    }
}

/// Pair `id` is registered in `reg`.
pub open spec fn registered(reg: Seq<SwapPair>, id: u32) -> bool {
    exists|k: int| 0 <= k < reg.len() && (#[trigger] reg[k]).pair_id == id
}

/// No pair id is registered twice.
pub open spec fn distinct_pairs(reg: Seq<SwapPair>) -> bool {
    forall|a: int, b: int| 0 <= a < b < reg.len() ==> (#[trigger] reg[a]).pair_id != (#[trigger] reg[b]).pair_id
}

/// Scanning from index `i` on, each ready swapshroom that finds a later ready
/// partner of its pair, for a pair id not yet in the registry `reg`, is
/// switched on with it, and the pair is registered.
pub open spec fn activate_from(cells: Seq<Cell>, n: int, i: int, reg: Seq<SwapPair>) -> (Seq<Cell>, Seq<SwapPair>)
    decreases n * n - i,
{
    if i < 0 || i >= cells.len() || i >= n * n {
        (cells, seq![])
    } else {
        match ready_pair(cells[i]) {
            Some(id) => if registered(reg, id) {
                activate_from(cells, n, i + 1, reg)
            } else {
                match first_partner(cells, id, i + 1) {
                    Some(j) => {
                        let next = cells.update(i, activated(cells[i])).update(j, activated(cells[j]));
                        let sp = SwapPair { pair_id: id, first: pos_of(i, n), second: pos_of(j, n) };
                        let rest = activate_from(next, n, i + 1, reg.push(sp));
                        (rest.0, seq![sp] + rest.1)
                    },
                    None => activate_from(cells, n, i + 1, reg),
                }
            },
            None => activate_from(cells, n, i + 1, reg),
        }
    }
}

/// The whole map after one turn, with `reg` the registry of active pairs:
/// every cell grown, then ripe pairs of unregistered ids activated.
pub open spec fn advanced(cells: Seq<Cell>, n: int, reg: Seq<SwapPair>) -> (Seq<Cell>, Seq<SwapPair>) {
    activate_from(Seq::new(cells.len(), |i: int| grown_cell(cells, n, i)), n, 0, reg)
}

/// Share of the cells, in percent, that start as berry bushes on tiles.
pub const BUSH_PERCENT: usize = 5;
/// Share of the cells, in percent, that start as bare sand.
pub const SAND_PERCENT: usize = 20;
/// Share of the cells, in percent, that start as ripe cane on sand.
pub const CANE_PERCENT: usize = 5;
/// Share of the cells, in percent, that start as water.
pub const WATER_PERCENT: usize = 10;

pub open spec fn bush_cell() -> Cell {
    Cell {
        ground: Ground::Tiled,
        plant: Plant::Bush(Bush { growth: Bush::MAX_GROWTH, berries: Bush::MAX_BERRIES }),
    }
}

pub open spec fn sand_cell() -> Cell {
    Cell { ground: Ground::Sand, plant: Plant::Empty }
}

pub open spec fn cane_cell() -> Cell {
    Cell { ground: Ground::Sand, plant: Plant::Cane(Cane { growth: Cane::GROWTH_TO_SUGAR }) }
}

pub open spec fn water_cell() -> Cell {
    Cell { ground: Ground::Water, plant: Plant::Empty }
}

pub open spec fn pumpkin_cell() -> Cell {
    Cell {
        ground: Ground::Tiled,
        plant: Plant::Pumpkin(Pumpkin { growth: 0, current_size: 1, max_size: 1 }),
    }
}

pub open spec fn cactus_cell() -> Cell {
    Cell { ground: Ground::Sand, plant: Plant::Cactus(Cactus { growth: 0, size: 0 }) }
}

pub open spec fn wheat_cell() -> Cell {
    Cell { ground: Ground::Dirt, plant: Plant::Wheat(Wheat { growth: Wheat::GROWTH_TO_GRAINS }) }
}

pub open spec fn stone_cell() -> Cell {
    Cell { ground: Ground::Stone, plant: Plant::Empty }
}

/// Slot `i` of the bag of `total` cells that a new map is shuffled from:
/// bushes, sand, cane and water by their shares, one pumpkin seed, one cactus
/// seed, ripe wheat for the rest, and the last `stones` slots stone.
pub open spec fn bag_slot(i: int, total: int, stones: int) -> Cell {
    let b = total * BUSH_PERCENT / 100;
    let s = b + total * SAND_PERCENT / 100;
    let c = s + total * CANE_PERCENT / 100;
    let w = c + total * WATER_PERCENT / 100;
    if i >= total - stones {
        stone_cell()
    } else if i < b {
        bush_cell()
    } else if i < s {
        sand_cell()
    } else if i < c {
        cane_cell()
    } else if i < w {
        water_cell()
    } else if i == w {
        pumpkin_cell()
    } else if i == w + 1 {
        cactus_cell()
    } else {
        wheat_cell()
    }
}

/// The bag of cells a map of side `n` with room for `players` is drawn from.
pub open spec fn bag(n: int, players: int) -> Seq<Cell> {
    let total = n * n;
    let stones = if players < total {
        players
    } else {
        total
    };
    Seq::new(total as nat, |i: int| bag_slot(i, total, stones))
}

/// The rank of a sunflower; `None` for any other cell.
pub open spec fn rank_of(c: Cell) -> Option<u8> {
    match c.plant {
        Plant::Sunflower(s) => Some(s.rank),
        _ => None,
    }
}

/// The highest sunflower rank among `cells`; zero without any sunflower.
pub open spec fn highest_rank(cells: Seq<Cell>) -> u8
    decreases cells.len(),
{
    if cells.len() == 0 {
        0
    } else {
        let rest = highest_rank(cells.drop_last());
        match rank_of(cells.last()) {
            Some(r) => if r > rest {
                r
            } else {
                rest
            },
            None => rest,
        }
    }
}

/// Every cell of `cells` is well formed.
pub open spec fn all_wf(cells: Seq<Cell>) -> bool {
    forall|i: int| 0 <= i < cells.len() ==> (#[trigger] cells[i]).wf()
}

impl FarmMap {
    pub open spec fn wf(&self) -> bool {
        &&& 1 <= self.size <= MAX_MAP_SIZE
        &&& self.cells@.len() == self.size * self.size
        &&& all_wf(self.cells@)
    }

    /// The cell at `p`.
    pub open spec fn at(&self, p: Pos) -> Cell {
        self.cells@[index_of(p, self.size as int)]
    }

    pub open spec fn contains(&self, p: Pos) -> bool {
        p.in_map(self.size as int)
    }

    /// Whether `p` lies on the map.
    pub fn contains_pos(&self, p: &Pos) -> (r: bool)
        requires
            self.wf(),
        ensures
            r == self.contains(*p),
    {
        0 <= p.x && (p.x as usize) < self.size && 0 <= p.y && (p.y as usize) < self.size
    }

    /// The side of the map.
    pub fn len(&self) -> (r: usize)
        ensures
            r == self.size,
    {
        self.size
    }

    /// The index of `p` in the cell vector.
    pub fn index(&self, p: &Pos) -> (r: usize)
        requires
            self.wf(),
            self.contains(*p),
        ensures
            r == index_of(*p, self.size as int),
            r < self.cells@.len(),
    {
        proof {
            lemma_index_in_range(*p, self.size as int);
        }
        p.y as usize * self.size + p.x as usize
    }

    /// The cell at `p`.
    pub fn get_cell(&self, p: &Pos) -> (r: Cell)
        requires
            self.wf(),
            self.contains(*p),
        ensures
            r == self.at(*p),
            r.wf(),
    {
        let i = self.index(p);
        self.cells[i]
    }

    /// Puts `cell` at `p`.
    pub fn set_cell(&mut self, p: &Pos, cell: Cell)
        requires
            old(self).wf(),
            old(self).contains(*p),
            cell.wf(),
        ensures
            final(self).wf(),
            final(self).size == old(self).size,
            final(self).cells@ == old(self).cells@.update(index_of(*p, old(self).size as int), cell),
    {
        let i = self.index(p);
        self.cells.set(i, cell);
    }

    /// The position of index `i`.
    pub fn pos_at(&self, i: usize) -> (r: Pos)
        requires
            self.wf(),
            i < self.cells@.len(),
        ensures
            r == pos_of(i as int, self.size as int),
            self.contains(r),
            index_of(r, self.size as int) == i,
    {
        proof {
            lemma_pos_of(i as int, self.size as int);
        }
        Pos { x: (i % self.size) as i32, y: (i / self.size) as i32 }
    }

    /// The stone positions, row by row.
    pub fn get_stones(&self) -> (r: Vec<Pos>)
        requires
            self.wf(),
        ensures
            forall|k: int| 0 <= k < r@.len() ==> self.contains(#[trigger] r@[k]) && self.at(r@[k]).ground
                == Ground::Stone,
            forall|k: int, l: int|
                0 <= k < l < r@.len() ==> index_of(#[trigger] r@[k], self.size as int) < index_of(
                    #[trigger] r@[l],
                    self.size as int,
                ),
            forall|i: int|
                0 <= i < self.cells@.len() && (#[trigger] self.cells@[i]).ground == Ground::Stone
                    ==> exists|k: int| 0 <= k < r@.len() && index_of(r@[k], self.size as int) == i,
    {
        let mut r: Vec<Pos> = Vec::new();
        let mut i: usize = 0;
        while i < self.cells.len()
            invariant
                self.wf(),
                i <= self.cells@.len(),
                forall|k: int| 0 <= k < r@.len() ==> self.contains(#[trigger] r@[k]) && self.at(r@[k]).ground
                    == Ground::Stone,
                forall|k: int| 0 <= k < r@.len() ==> index_of(#[trigger] r@[k], self.size as int) < i,
                forall|k: int, l: int|
                    0 <= k < l < r@.len() ==> index_of(#[trigger] r@[k], self.size as int) < index_of(
                        #[trigger] r@[l],
                        self.size as int,
                    ),
                forall|j: int|
                    0 <= j < i && (#[trigger] self.cells@[j]).ground == Ground::Stone ==> exists|k: int|
                        0 <= k < r@.len() && index_of(r@[k], self.size as int) == j,
            decreases self.cells@.len() - i,
        {
            let ghost r0 = r@;
            if self.cells[i].ground == Ground::Stone {
                let p = self.pos_at(i);
                r.push(p);
                proof {
                    assert(index_of(r@[r@.len() - 1], self.size as int) == i);
                }
            }
            proof {
                assert forall|j: int|
                    0 <= j < i + 1 && (#[trigger] self.cells@[j]).ground == Ground::Stone implies exists|k: int|
                        0 <= k < r@.len() && index_of(r@[k], self.size as int) == j by {
                    if j < i {
                        let k = choose|k: int| 0 <= k < r0.len() && index_of(r0[k], self.size as int) == j;
                        assert(r@[k] == r0[k]);
                    } else {
                        assert(index_of(r@[r@.len() - 1], self.size as int) == j);
                    }
                }
            }
            i = i + 1;
        }
        r
    }

    /// The highest rank among the sunflowers of the map; zero without any.
    pub fn get_highest_sunflower_rank(&self) -> (r: u8)
        ensures
            r == highest_rank(self.cells@),
    {
        let mut best: u8 = 0;
        let mut i: usize = 0;
        while i < self.cells.len()
            invariant
                i <= self.cells@.len(),
                best == highest_rank(self.cells@.subrange(0, i as int)),
            decreases self.cells@.len() - i,
        {
            proof {
                assert(self.cells@.subrange(0, i + 1).drop_last() =~= self.cells@.subrange(0, i as int));
            }
            if let Plant::Sunflower(s) = self.cells[i].plant {
                if s.rank > best {
                    best = s.rank;
                }
            }
            i = i + 1;
        }
        proof {
            assert(self.cells@.subrange(0, i as int) =~= self.cells@);
        }
        best
    }

    /// The index of neighbour `k` of index `i`.
    fn neighbour_index(&self, i: usize, k: usize) -> (r: usize)
        requires
            self.wf(),
            i < self.cells@.len(),
            k < 4,
        ensures
            r == neighbour(i as int, self.size as int, k as int),
            r < self.cells@.len(),
    {
        let n = self.size;
        proof {
            lemma_pos_of(i as int, n as int);
        }
        let x = i % n;
        let y = i / n;
        let (nx, ny) = if k == 0 {
            ((x + 1) % n, y)
        } else if k == 1 {
            ((x + n - 1) % n, y)
        } else if k == 2 {
            (x, (y + 1) % n)
        } else {
            (x, (y + n - 1) % n)
        };
        proof {
            lemma_index_in_range(Pos { x: nx as i32, y: ny as i32 }, n as int);
        }
        ny * n + nx
    }

    /// Cell `i` after one turn of growth.
    fn grown_cell_at(&self, i: usize) -> (r: Cell)
        requires
            self.wf(),
            i < self.cells@.len(),
        ensures
            r == grown_cell(self.cells@, self.size as int, i as int),
            r.wf(),
    {
        let c = self.cells[i];
        if c.ground == Ground::Dirt && c.plant == Plant::Empty {
            return Cell { ground: Ground::Dirt, plant: Plant::Wheat(Wheat { growth: 0 }) };
        }
        let ghost cells = self.cells@;
        let ghost n = self.size as int;
        let mut water = false;
        let mut tree = false;
        let mut ripe: u8 = 0;
        let mut k: usize = 0;
        while k < 4
            invariant
                self.wf(),
                cells == self.cells@,
                n == self.size,
                i < cells.len(),
                k <= 4,
                water == any_of_first(cells, n, i as int, k as int, |d: Cell| is_water(d)),
                tree == any_of_first(cells, n, i as int, k as int, |d: Cell| is_tree(d)),
                ripe == (if k > 0 && is_ripe_pumpkin(cells[neighbour(i as int, n, 0)]) { 1int } else { 0 })
                    + (if k > 1 && is_ripe_pumpkin(cells[neighbour(i as int, n, 1)]) { 1int } else { 0 })
                    + (if k > 2 && is_ripe_pumpkin(cells[neighbour(i as int, n, 2)]) { 1int } else { 0 })
                    + (if k > 3 && is_ripe_pumpkin(cells[neighbour(i as int, n, 3)]) { 1int } else { 0 }),
            decreases 4 - k,
        {
            let j = self.neighbour_index(i, k);
            let d = self.cells[j];
            if d.ground == Ground::Water {
                water = true;
            }
            if let Plant::Tree(_) = d.plant {
                tree = true;
            }
            if let Plant::Pumpkin(p) = d.plant {
                if p.growth >= Pumpkin::GROWTH_TO_PUMPKINSEED {
                    ripe = ripe + 1;
                }
            }
            k = k + 1;
        }
        proof {
            assert(water == any_neighbour(cells, n, i as int, |d: Cell| is_water(d)));
            assert(tree == any_neighbour(cells, n, i as int, |d: Cell| is_tree(d)));
        }
        let rate: u8 = if water {
            2
        } else {
            1
        };
        Cell { ground: c.ground, plant: c.plant.grow(rate, tree, ripe) }
    }

    /// One turn of the world: every cell grows from the map as it stood
    /// before, then each pair of ripe swapshrooms whose id is not in `active`
    /// yet is switched on and added to it.
    pub fn update_map(&mut self, active: &mut Vec<SwapPair>)
        requires
            old(self).wf(),
        ensures
            final(self).wf(),
            final(self).size == old(self).size,
            final(self).cells@ == advanced(old(self).cells@, old(self).size as int, old(active)@).0,
            final(active)@ == old(active)@ + advanced(old(self).cells@, old(self).size as int, old(active)@).1,
            distinct_pairs(old(active)@) ==> distinct_pairs(final(active)@),
    {
        let ghost n = self.size as int;
        let mut next: Vec<Cell> = Vec::new();
        let mut i: usize = 0;
        while i < self.cells.len()
            invariant
                self.wf(),
                n == self.size,
                i <= self.cells@.len(),
                next@ =~= Seq::new(i as nat, |k: int| grown_cell(self.cells@, n, k)),
                all_wf(next@),
            decreases self.cells@.len() - i,
        {
            let c = self.grown_cell_at(i);
            next.push(c);
            i = i + 1;
        }
        activate_pairs(&mut next, self.size, active);
        self.cells = next;
    }

    /// A new map of side `size`: the bag of cells (see `bag`) shuffled with
    /// `rng`, with a stone for each of `player_count` players as room allows.
    pub fn generate_map(size: usize, rng: &mut SmallRng, player_count: u32) -> (r: FarmMap)
        requires
            1 <= size <= MAX_MAP_SIZE,
        ensures
            r.wf(),
            r.size == size,
            r.cells@.to_multiset() == bag(size as int, player_count as int).to_multiset(),
    {
        proof {
            lemma_index_in_range(Pos { x: 0, y: 0 }, size as int);
        }
        let total = size * size;
        let stones: usize = if (player_count as usize) < total {
            player_count as usize
        } else {
            total
        };
        let mut cells: Vec<Cell> = Vec::new();
        let mut i: usize = 0;
        while i < total
            invariant
                total == size * size,
                total <= MAX_MAP_SIZE * MAX_MAP_SIZE,
                stones <= total,
                i <= total,
                cells@ =~= Seq::new(i as nat, |k: int| bag_slot(k, total as int, stones as int)),
                all_wf(cells@),
            decreases total - i,
        {
            let c = bag_cell(i, total, stones);
            cells.push(c);
            i = i + 1;
        }
        proof {
            assert(cells@ =~= bag(size as int, player_count as int));
        }
        let ghost before = cells@;
        shuffle_cells(&mut cells, rng);
        proof {
            assert forall|k: int| 0 <= k < cells@.len() implies (#[trigger] cells@[k]).wf() by {
                let c = cells@[k];
                vstd::seq_lib::to_multiset_contains(cells@, c);
                vstd::seq_lib::to_multiset_contains(before, c);
                assert(cells@.contains(c));
                assert(before.contains(c));
            }
            vstd::seq_lib::to_multiset_len(cells@);
            vstd::seq_lib::to_multiset_len(before);
        }
        FarmMap { size, cells }
    }
}

/// Slot `i` of the bag a new map is shuffled from (see `bag_slot`).
fn bag_cell(i: usize, total: usize, stones: usize) -> (r: Cell)
    requires
        total <= MAX_MAP_SIZE * MAX_MAP_SIZE,
        stones <= total,
    ensures
        r == bag_slot(i as int, total as int, stones as int),
        r.wf(),
{
    let t = total as u64;
    let b = (t * BUSH_PERCENT as u64 / 100) as usize;
    let s = b + (t * SAND_PERCENT as u64 / 100) as usize;
    let c = s + (t * CANE_PERCENT as u64 / 100) as usize;
    let w = c + (t * WATER_PERCENT as u64 / 100) as usize;
    if i >= total - stones {
        Cell { ground: Ground::Stone, plant: Plant::Empty }
    } else if i < b {
        Cell {
            ground: Ground::Tiled,
            plant: Plant::Bush(Bush { growth: Bush::MAX_GROWTH, berries: Bush::MAX_BERRIES }),
        }
    } else if i < s {
        Cell { ground: Ground::Sand, plant: Plant::Empty }
    } else if i < c {
        Cell { ground: Ground::Sand, plant: Plant::Cane(Cane { growth: Cane::GROWTH_TO_SUGAR }) }
    } else if i < w {
        Cell { ground: Ground::Water, plant: Plant::Empty }
    } else if i == w {
        Cell {
            ground: Ground::Tiled,
            plant: Plant::Pumpkin(Pumpkin { growth: 0, current_size: 1, max_size: 1 }),
        }
    } else if i == w + 1 {
        Cell { ground: Ground::Sand, plant: Plant::Cactus(Cactus { growth: 0, size: 0 }) }
    } else {
        Cell { ground: Ground::Dirt, plant: Plant::Wheat(Wheat { growth: Wheat::GROWTH_TO_GRAINS }) }
    }
}

/// The position of index `i` on a map of side `n`.
fn pos_at_index(i: usize, n: usize) -> (r: Pos)
    requires
        1 <= n <= MAX_MAP_SIZE,
        i < n * n,
    ensures
        r == pos_of(i as int, n as int),
        r.in_map(n as int),
        index_of(r, n as int) == i,
{
    proof {
        lemma_pos_of(i as int, n as int);
    }
    Pos { x: (i % n) as i32, y: (i / n) as i32 }
}

/// The pair id of a ripe swapshroom that is not active yet.
fn ready_pair_of(c: &Cell) -> (r: Option<u32>)
    ensures
        r == ready_pair(*c),
{
    match c.plant {
        Plant::Swapshroom(s) => {
            if s.growth >= Swapshroom::GROWTH_TO_BE_READY && !s.active {
                Some(s.pair_id)
            } else {
                None
            }
        },
        _ => None,
    }
}

fn activate(c: Cell) -> (r: Cell)
    requires
        c.wf(),
    ensures
        r == activated(c),
        r.wf(),
{
    match c.plant {
        Plant::Swapshroom(s) => Cell {
            ground: c.ground,
            plant: Plant::Swapshroom(Swapshroom { growth: s.growth, pair_id: s.pair_id, active: true }),
        },
        _ => c,
    }
}

/// The first index from `start` on that holds a ready swapshroom of pair `id`.
fn find_partner(cells: &Vec<Cell>, id: u32, start: usize) -> (r: Option<usize>)
    ensures
        match r {
            Some(j) => start <= j < cells@.len() && first_partner(cells@, id, start as int) == Some(j as int),
            None => first_partner(cells@, id, start as int) is None,
        },
{
    let mut j = start;
    while j < cells.len()
        invariant
            start <= j,
            first_partner(cells@, id, start as int) == first_partner(cells@, id, j as int),
        decreases cells@.len() - j,
    {
        if ready_pair_of(&cells[j]) == Some(id) {
            return Some(j);
        }
        j = j + 1;
    }
    None
}

/// Whether pair `id` is in `pairs`.
fn is_registered(pairs: &Vec<SwapPair>, id: u32) -> (r: bool)
    ensures
        r == registered(pairs@, id),
{
    let mut k: usize = 0;
    while k < pairs.len()
        invariant
            k <= pairs@.len(),
            forall|j: int| 0 <= j < k ==> (#[trigger] pairs@[j]).pair_id != id,
        decreases pairs@.len() - k,
    {
        if pairs[k].pair_id == id {
            return true;
        }
        k = k + 1;
    }
    false
}

/// Switches on each pair of ready swapshrooms whose id is not registered in
/// `pairs` yet, and registers it.
fn activate_pairs(cells: &mut Vec<Cell>, n: usize, pairs: &mut Vec<SwapPair>)
    requires
        1 <= n <= MAX_MAP_SIZE,
        old(cells)@.len() == n * n,
        all_wf(old(cells)@),
    ensures
        final(cells)@.len() == n * n,
        final(cells)@ == activate_from(old(cells)@, n as int, 0, old(pairs)@).0,
        final(pairs)@ == old(pairs)@ + activate_from(old(cells)@, n as int, 0, old(pairs)@).1,
        all_wf(final(cells)@),
        distinct_pairs(old(pairs)@) ==> distinct_pairs(final(pairs)@),
{
    let ghost orig = cells@;
    let ghost start = pairs@;
    let ghost mut found: Seq<SwapPair> = seq![];
    let mut i: usize = 0;
    while i < cells.len()
        invariant
            1 <= n <= MAX_MAP_SIZE,
            cells@.len() == n * n,
            all_wf(cells@),
            i <= cells@.len(),
            pairs@ == start + found,
            activate_from(orig, n as int, 0, start).0 == activate_from(cells@, n as int, i as int, pairs@).0,
            activate_from(orig, n as int, 0, start).1 == found + activate_from(cells@, n as int, i as int, pairs@).1,
            distinct_pairs(start) ==> distinct_pairs(pairs@),
        decreases cells@.len() - i,
    {
        let ghost before = cells@;
        let ghost reg = pairs@;
        let mut done = false;
        if let Some(id) = ready_pair_of(&cells[i]) {
            if !is_registered(pairs, id) {
                if let Some(j) = find_partner(cells, id, i + 1) {
                    let a = activate(cells[i]);
                    cells.set(i, a);
                    let b = activate(cells[j]);
                    cells.set(j, b);
                    let p = SwapPair { pair_id: id, first: pos_at_index(i, n), second: pos_at_index(j, n) };
                    pairs.push(p);
                    done = true;
                    proof {
                        assert(first_partner(before, id, i + 1) == Some(j as int));
                        assert(cells@ == before.update(i as int, activated(before[i as int])).update(
                            j as int,
                            activated(before[j as int]),
                        ));
                        assert(pairs@ == reg.push(p));
                        found = found.push(p);
                        assert(seq![p] + activate_from(cells@, n as int, i + 1, pairs@).1 == activate_from(
                            before,
                            n as int,
                            i as int,
                            reg,
                        ).1);
                        assert(found + activate_from(cells@, n as int, i + 1, pairs@).1 =~= (found.drop_last())
                            + (seq![p] + activate_from(cells@, n as int, i + 1, pairs@).1));
                        assert(pairs@ =~= start + found);
                        assert(activate_from(before, n as int, i as int, reg).0 == activate_from(
                            cells@,
                            n as int,
                            i + 1,
                            pairs@,
                        ).0);
                        assert forall|k: int| 0 <= k < cells@.len() implies (#[trigger] cells@[k]).wf() by {
                            assert(before[k].wf());
                        }
                        if distinct_pairs(start) {
                            assert forall|x: int, y: int| 0 <= x < y < pairs@.len() implies (#[trigger] pairs@[x]).pair_id
                                != (#[trigger] pairs@[y]).pair_id by {
                                if y == pairs@.len() - 1 {
                                    assert(pairs@[x] == reg[x]);
                                } else {
                                    assert(pairs@[x] == reg[x] && pairs@[y] == reg[y]);
                                }
                            }
                        }
                    }
                }
            }
        }
        proof {
            if !done {
                assert(cells@ == before);
                assert(pairs@ == reg);
                assert(activate_from(before, n as int, i as int, reg) == activate_from(before, n as int, i + 1, reg));
            }
        }
        i = i + 1;
    }
    proof {
        assert(activate_from(cells@, n as int, i as int, pairs@).1 =~= seq![]);
        assert(found + seq![] =~= found);
    }
}

/// Two positions on a map share an index only if they are equal.
pub proof fn lemma_index_injective(p: Pos, q: Pos, n: int)
    requires
        p.in_map(n),
        q.in_map(n),
    ensures
        index_of(p, n) == index_of(q, n) <==> p == q,
{
    if index_of(p, n) == index_of(q, n) {
        vstd::arithmetic::div_mod::lemma_fundamental_div_mod_converse(index_of(p, n), n, p.y as int, p.x as int);
        vstd::arithmetic::div_mod::lemma_fundamental_div_mod_converse(index_of(q, n), n, q.y as int, q.x as int);
    }
}

/// Index bounds on a map of side `n`.
proof fn lemma_index_in_range(p: Pos, n: int)
    requires
        p.in_map(n),
        1 <= n <= MAX_MAP_SIZE,
    ensures
        0 <= index_of(p, n) < n * n,
        n * n <= MAX_MAP_SIZE * MAX_MAP_SIZE,
        0 <= p.y * n < n * n,
{
    assert(n * n <= MAX_MAP_SIZE * MAX_MAP_SIZE) by (nonlinear_arith)
        requires
            1 <= n <= MAX_MAP_SIZE,
    ;
    assert(p.y * n <= (n - 1) * n) by (nonlinear_arith)
        requires
            0 <= p.y < n,
    ;
    assert(p.y * n + p.x < n * n) by (nonlinear_arith)
        requires
            0 <= p.y < n,
            0 <= p.x < n,
    ;
    assert(p.y * n >= 0) by (nonlinear_arith)
        requires
            0 <= p.y,
            n >= 1,
    ;
}

proof fn lemma_pos_of(i: int, n: int)
    requires
        0 <= i < n * n,
        1 <= n <= MAX_MAP_SIZE,
    ensures
        pos_of(i, n).in_map(n),
        index_of(pos_of(i, n), n) == i,
        0 <= i % n < n,
        0 <= i / n < n,
{
    assert(n * n <= MAX_MAP_SIZE * MAX_MAP_SIZE) by (nonlinear_arith)
        requires
            1 <= n <= MAX_MAP_SIZE,
    ;
    vstd::arithmetic::div_mod::lemma_fundamental_div_mod(i, n);
    vstd::arithmetic::div_mod::lemma_div_pos_is_pos(i, n);
    vstd::arithmetic::div_mod::lemma_div_is_ordered(i, n * n, n);
    vstd::arithmetic::div_mod::lemma_div_multiples_vanish(n, n);
    assert(i / n < n) by {
        vstd::arithmetic::div_mod::lemma_div_by_multiple_is_strongly_ordered(i, n * n, n, n);
    }
    let p = pos_of(i, n);
    assert(p.x == i % n);
    assert(p.y == i / n);
    assert((i / n) * n + i % n == i) by (nonlinear_arith)
        requires
            i == n * (i / n) + i % n,
    ;
    assert(p.y * n == (i / n) * n);
}

} // verus!
