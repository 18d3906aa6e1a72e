use vstd::prelude::*;

verus! {

/// One of the four moves on the map.
#[derive(Debug, Clone, Copy, PartialEq, Eq, Structural)]
pub enum Direction {
    Up,
    Right,
    Down,
    Left,
}

/// A cell coordinate; on a map of size `n` both coordinates lie in `[0, n)`.
#[derive(Debug, Clone, Copy, PartialEq, Eq, Structural, Hash)]
pub struct Pos {
    pub x: i32,
    pub y: i32,
}

/// The x offset of a direction.
pub open spec fn dx(d: Direction) -> int {
    match d {
        Direction::Right => 1,
        Direction::Left => -1,
        _ => 0,
    }
}

/// The y offset of a direction (y grows downwards).
pub open spec fn dy(d: Direction) -> int {
    match d {
        Direction::Up => -1,
        Direction::Down => 1,
        _ => 0,
    }
}

impl Pos {
    /// The position lies on a map of size `n`.
    pub open spec fn in_map(self, n: int) -> bool {
        0 <= self.x < n && 0 <= self.y < n
    }

    /// The neighbour in direction `d` on a torus of size `n`; staying put when
    /// no direction is given.
    pub open spec fn next_spec(self, d: Option<Direction>, n: int) -> Pos
        recommends
            n > 0,
    {
        match d {
            Some(d) => Pos { x: ((self.x + dx(d)) % n) as i32, y: ((self.y + dy(d)) % n) as i32 },
            None => self,
        }
    }

    /// The next position on a map of size `map_size`, wrapping around its edges.
    pub fn get_next_pos_on_map(&self, direction: Option<Direction>, map_size: i32) -> (r: Self)
        requires
            map_size > 0,
        ensures
            r == self.next_spec(direction, map_size as int),
            direction.is_some() ==> r.in_map(map_size as int),
    {
        match direction {
            Some(direction) => {
                let dp = direction.to_pos();
                Pos { x: wrap(self.x, dp.x, map_size), y: wrap(self.y, dp.y, map_size) }
            },
            None => *self,
        }
    }
}

/// `(v + d) mod n`, the Euclidean remainder, for a unit step `d`.
fn wrap(v: i32, d: i32, n: i32) -> (r: i32)
    requires
        n > 0,
        -1 <= d <= 1,
    ensures
        r == (v + d) % (n as int),
        0 <= r < n,
{
    let s: i64 = v as i64 + d as i64;
    let m: i64 = n as i64;
    if s >= 0 {
        let r: i64 = s % m;
        r as i32
    } else {
        let a: i64 = -(s + 1);
        let q: i64 = a % m;
        proof {
            lemma_neg_mod(s as int, m as int);
        }
        (m - 1 - q) as i32
    }
}

proof fn lemma_neg_mod(s: int, m: int)
    requires
        s < 0,
        m > 0,
    ensures
        s % m == m - 1 - ((-(s + 1)) % m),
{
    let a = -(s + 1);
    let q = a / m;
    let r = a % m;
    assert(a == q * m + r && 0 <= r < m) by {
        vstd::arithmetic::div_mod::lemma_fundamental_div_mod(a, m);
    }
    assert(s == (-q - 1) * m + (m - 1 - r)) by (nonlinear_arith)
        requires
            a == q * m + r,
            s == -(a + 1),
    ;
    vstd::arithmetic::div_mod::lemma_fundamental_div_mod_converse(s, m, -q - 1, m - 1 - r);
}

impl Direction {
    /// The unit step of this direction.
    pub fn to_pos(&self) -> (r: Pos)
        ensures
            r.x == dx(*self),
            r.y == dy(*self),
    {
        match self {
            Direction::Up => Pos { x: 0, y: -1 },
            Direction::Right => Pos { x: 1, y: 0 },
            Direction::Down => Pos { x: 0, y: 1 },
            Direction::Left => Pos { x: -1, y: 0 },
        }
    }
}

/// Every step on a torus of size `n` lands back on the map, whatever the
/// starting position.
pub proof fn lemma_next_stays_on_map(p: Pos, d: Direction, n: i32)
    requires
        n > 0,
    ensures
        p.next_spec(Some(d), n as int).in_map(n as int),
{
    assert(0 <= (p.x + dx(d)) % (n as int) < n);
    assert(0 <= (p.y + dy(d)) % (n as int) < n);
}

} // verus!
