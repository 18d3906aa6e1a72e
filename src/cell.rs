use vstd::prelude::*;
use vstd::string::*;
use crate::ground::Ground;
use crate::plant::{Cactus, Cane, Plant, Tree, Wheat};

verus! {

/// One square of the map: its ground and what grows on it.
#[derive(Debug, Clone, Copy, PartialEq, Eq, Structural)]
pub struct Cell {
    pub ground: Ground,
    pub plant: Plant,
}

impl Cell {
    pub open spec fn wf(self) -> bool {
        self.plant.wf()
    }
}

/// The decimal digit `d` as a character.
pub open spec fn digit(d: int) -> char {
    if 0 <= d <= 9 {
        ((48 + d) as u8) as char
    } else {
        '0'
    }
}

/// `10^k`.
pub open spec fn pow10(k: nat) -> nat
    decreases k,
{
    if k == 0 {
        1
    } else {
        10 * pow10((k - 1) as nat)
    }
}

/// The number of decimal digits of `n`.
pub open spec fn ndigits(n: nat) -> nat
    decreases n,
{
    if n < 10 {
        1
    } else {
        1 + ndigits(n / 10)
    }
}

/// The decimal representation of `n`, without leading zeros.
pub open spec fn dec(n: nat) -> Seq<char>
    decreases n,
{
    if n < 10 {
        seq![digit(n as int)]
    } else {
        dec(n / 10).push(digit((n % 10) as int))
    }
}

/// Character `k` of `n` written in decimal and padded with zeros to at least
/// `width` digits.
pub open spec fn padded_digit(n: nat, width: nat, k: nat) -> char {
    let w = if ndigits(n) > width {
        ndigits(n)
    } else {
        width
    };
    digit(((n / pow10((w - 1 - k) as nat)) % 10) as int)
}

/// The three characters of `x` written with three digits.
pub open spec fn chars3(x: u8) -> Seq<char> {
    seq![digit((x / 100) as int), digit(((x / 10) % 10) as int), digit((x % 10) as int)]
}

/// The first character of `x` written in decimal.
pub open spec fn lead_char(x: u8) -> char {
    if x >= 100 {
        digit((x / 100) as int)
    } else if x >= 10 {
        digit((x / 10) as int)
    } else {
        digit(x as int)
    }
}

/// The 256-colour code of a ground.
pub open spec fn background(g: Ground) -> nat {
    match g {
        Ground::Dirt => 94,
        Ground::Tiled => 22,
        Ground::Sand => 142,
        Ground::Water => 62,
        Ground::Stone => 249,
    }
}

/// The 256-colour code of a plant.
pub open spec fn foreground(p: Plant) -> nat {
    match p {
        Plant::Wheat(_) => 184,
        Plant::Bush(_) => 76,
        Plant::Tree(_) => 70,
        Plant::Pumpkin(_) => 172,
        Plant::Cactus(_) => 22,
        Plant::Swapshroom(_) => 53,
        Plant::Sunflower(_) => 11,
        _ => 0,
    }
}

/// `[c] + chars3(g) + [sep] + chars3(m)`.
pub open spec fn tagged(c: char, g: u8, sep: char, m: u8) -> Seq<char> {
    seq![c] + chars3(g) + seq![sep] + chars3(m)
}

/// The eight characters drawn for a plant, two rows of four.
pub open spec fn glyphs(p: Plant) -> Seq<char> {
    match p {
        Plant::Empty => seq![' ', ' ', ' ', ' ', ' ', ' ', ' ', ' '],
        Plant::Wheat(w) => tagged('W', w.growth, '/', Wheat::GROWTH_TO_GRAINS),
        Plant::Bush(b) => tagged('B', b.growth, '°', b.berries),
        Plant::Tree(t) => tagged('T', t.growth, '/', Tree::GROWTH_TO_WOOD),
        Plant::Cane(c) => tagged('C', c.growth, '/', Cane::GROWTH_TO_SUGAR),
        Plant::Pumpkin(k) => seq!['P'] + chars3(k.growth) + seq![
            '+',
            lead_char(k.current_size),
            '/',
            lead_char(k.max_size),
        ],
        Plant::Cactus(c) => seq!['I'] + chars3(c.growth) + seq![
            '+',
            lead_char(c.size),
            '/',
            lead_char(Cactus::MAX_CACTUSMEAT),
        ],
        Plant::Wallbush(w) => tagged('#', w.growth, '#', w.health),
        Plant::Swapshroom(s) => seq![
            if s.active {
                '*'
            } else {
                lead_char(s.growth)
            },
        ] + Seq::new(7, |k: int| padded_digit(s.pair_id as nat, 7, k as nat)),
        Plant::Sunflower(s) => tagged('S', s.growth, 's', s.rank),
    }
}

/// One drawn character: background and foreground colour escapes, the
/// character, and a reset.
pub open spec fn ansi(bg: nat, fg: nat, c: char) -> Seq<char> {
    seq!['\x1b', '[', '4', '8', ';', '5', ';'] + dec(bg) + seq!['m', '\x1b', '[', '3', '8', ';', '5', ';']
        + dec(fg) + seq!['m', c, '\x1b', '[', '0', 'm']
}

/// Relies on `String::push`, which appends one character.
#[verifier::external_body]
fn push_char(s: &mut String, c: char)
    ensures
        final(s)@ == old(s)@.push(c),
{
    s.push(c)
}

fn digit_char(d: u32) -> (r: char)
    requires
        d <= 9,
    ensures
        r == digit(d as int),
{
    match d {
        0 => '0',
        1 => '1',
        2 => '2',
        3 => '3',
        4 => '4',
        5 => '5',
        6 => '6',
        7 => '7',
        8 => '8',
        _ => '9',
    }
}

/// Appends `n` in decimal.
fn push_dec(s: &mut String, n: u32)
    ensures
        final(s)@ == old(s)@ + dec(n as nat),
    decreases n,
{
    if n >= 10 {
        push_dec(s, n / 10);
    }
    push_char(s, digit_char(n % 10));
    proof {
        if n < 10 {
            assert(dec(n as nat) =~= seq![digit(n as int)]);
        }
    }
}

fn push_seq(s: &mut String, cs: &[char])
    ensures
        final(s)@ == old(s)@ + cs@,
{
    let mut i: usize = 0;
    while i < cs.len()
        invariant
            i <= cs@.len(),
            s@ == old(s)@ + cs@.subrange(0, i as int),
        decreases cs@.len() - i,
    {
        push_char(s, cs[i]);
        proof {
            assert(cs@.subrange(0, i + 1) =~= cs@.subrange(0, i as int).push(cs@[i as int]));
        }
        i = i + 1;
    }
    proof {
        assert(cs@.subrange(0, cs@.len() as int) =~= cs@);
    }
}

fn ansi_string(bg: u32, fg: u32, c: char) -> (r: String)
    ensures
        r@ == ansi(bg as nat, fg as nat, c),
{
    let mut s = String::new();
    push_seq(&mut s, &['\x1b', '[', '4', '8', ';', '5', ';']);
    push_dec(&mut s, bg);
    push_seq(&mut s, &['m', '\x1b', '[', '3', '8', ';', '5', ';']);
    push_dec(&mut s, fg);
    push_seq(&mut s, &['m', c, '\x1b', '[', '0', 'm']);
    proof {
        assert(s@ =~= ansi(bg as nat, fg as nat, c));
    }
    s
}

/// The first character of `x` written in decimal.
pub fn to_char(x: u8) -> (r: char)
    ensures
        r == lead_char(x),
{
    if x >= 100 {
        digit_char((x / 100) as u32)
    } else if x >= 10 {
        digit_char((x / 10) as u32)
    } else {
        digit_char(x as u32)
    }
}

/// `x` written with three digits, zero-padded.
pub fn to_chars3(x: u8) -> (r: [char; 3])
    ensures
        r@ == chars3(x),
{
    let r = [digit_char((x / 100) as u32), digit_char(((x / 10) % 10) as u32), digit_char((x % 10) as u32)];
    proof {
        assert(r@ =~= chars3(x));
    }
    r
}

fn ndigits_of(n: u32) -> (r: u32)
    ensures
        r == ndigits(n as nat),
        r <= 10,
    decreases n,
{
    proof {
        reveal_with_fuel(pow10, 11);
        lemma_ndigits_bound(n as nat, 10);
    }
    if n < 10 {
        1
    } else {
        1 + ndigits_of(n / 10)
    }
}

fn pow10_of(k: u32) -> (r: u64)
    requires
        k <= 10,
    ensures
        r == pow10(k as nat),
        r <= 10_000_000_000u64,
    decreases k,
{
    if k == 0 {
        1
    } else {
        proof {
            reveal_with_fuel(pow10, 2);
        }
        let p = pow10_of(k - 1);
        proof {
            lemma_pow10_bound(k as nat);
        }
        10 * p
    }
}

proof fn lemma_pow10_bound(k: nat)
    requires
        k <= 10,
    ensures
        pow10(k) <= 10_000_000_000,
    decreases 10 - k,
{
    if k < 10 {
        lemma_pow10_bound(k + 1);
        assert(pow10(k + 1) == 10 * pow10(k));
    } else {
        reveal_with_fuel(pow10, 11);
    }
}

proof fn lemma_ndigits_bound(n: nat, k: nat)
    requires
        k >= 1,
        n < pow10(k),
    ensures
        ndigits(n) <= k,
    decreases n,
{
    if n >= 10 {
        assert(pow10(k) == 10 * pow10((k - 1) as nat));
        if k == 1 {
            assert(pow10(0) == 1);
        } else {
            lemma_ndigits_bound(n / 10, (k - 1) as nat);
        }
    }
}

/// The characters of `n` written with at least seven digits, zero-padded;
/// only the first seven are kept.
fn padded7(n: u32) -> (r: [char; 7])
    ensures
        r@ =~= Seq::new(7, |k: int| padded_digit(n as nat, 7, k as nat)),
{
    let nd = ndigits_of(n);
    let w: u32 = if nd > 7 {
        nd
    } else {
        7
    };
    let mut r = ['0'; 7];
    let mut k: u32 = 0;
    while k < 7
        invariant
            k <= 7,
            w == (if ndigits(n as nat) > 7 { ndigits(n as nat) } else { 7 }),
            7 <= w <= 10,
            r@.len() == 7,
            forall|j: int| 0 <= j < k ==> r@[j] == padded_digit(n as nat, 7, j as nat),
        decreases 7 - k,
    {
        let p = pow10_of(w - 1 - k);
        proof {
            assert(p > 0) by {
                lemma_pow10_pos((w - 1 - k) as nat);
            }
        }
        let d = ((n as u64 / p) % 10) as u32;
        r[k as usize] = digit_char(d);
        k = k + 1;
    }
    r
}

proof fn lemma_pow10_pos(k: nat)
    ensures
        pow10(k) > 0,
    decreases k,
{
    if k > 0 {
        lemma_pow10_pos((k - 1) as nat);
    }
}

fn background_code(g: Ground) -> (r: u32)
    ensures
        r == background(g),
{
    match g {
        Ground::Dirt => 94,
        Ground::Tiled => 22,
        Ground::Sand => 142,
        Ground::Water => 62,
        Ground::Stone => 249,
    }
}

fn foreground_code(p: Plant) -> (r: u32)
    ensures
        r == foreground(p),
{
    match p {
        Plant::Wheat(_) => 184,
        Plant::Bush(_) => 76,
        Plant::Tree(_) => 70,
        Plant::Pumpkin(_) => 172,
        Plant::Cactus(_) => 22,
        Plant::Swapshroom(_) => 53,
        Plant::Sunflower(_) => 11,
        _ => 0,
    }
}

fn tagged_chars(c: char, g: u8, sep: char, m: u8) -> (r: [char; 8])
    ensures
        r@ =~= tagged(c, g, sep, m),
{
    let a = to_chars3(g);
    let b = to_chars3(m);
    [c, a[0], a[1], a[2], sep, b[0], b[1], b[2]]
}

/// The eight characters drawn for a plant.
pub fn plant_glyphs(p: &Plant) -> (r: [char; 8])
    ensures
        r@ =~= glyphs(*p),
{
    match p {
        Plant::Empty => [' '; 8],
        Plant::Wheat(w) => tagged_chars('W', w.growth, '/', Wheat::GROWTH_TO_GRAINS),
        Plant::Bush(b) => tagged_chars('B', b.growth, '°', b.berries),
        Plant::Tree(t) => tagged_chars('T', t.growth, '/', Tree::GROWTH_TO_WOOD),
        Plant::Cane(c) => tagged_chars('C', c.growth, '/', Cane::GROWTH_TO_SUGAR),
        Plant::Pumpkin(k) => {
            let g = to_chars3(k.growth);
            ['P', g[0], g[1], g[2], '+', to_char(k.current_size), '/', to_char(k.max_size)]
        },
        Plant::Cactus(c) => {
            let g = to_chars3(c.growth);
            ['I', g[0], g[1], g[2], '+', to_char(c.size), '/', to_char(Cactus::MAX_CACTUSMEAT)]
        },
        Plant::Wallbush(w) => tagged_chars('#', w.growth, '#', w.health),
        Plant::Swapshroom(s) => {
            let c = padded7(s.pair_id);
            let head = if s.active {
                '*'
            } else {
                to_char(s.growth)
            };
            [head, c[0], c[1], c[2], c[3], c[4], c[5], c[6]]
        },
        Plant::Sunflower(s) => tagged_chars('S', s.growth, 's', s.rank),
    }
}

impl Cell {
    /// The cell drawn as eight coloured characters, two rows of four.
    pub fn to_ansi(&self) -> (r: [String; 8])
        ensures
            forall|i: int|
                0 <= i < 8 ==> #[trigger] r@[i]@ == ansi(
                    background(self.ground),
                    foreground(self.plant),
                    glyphs(self.plant)[i],
                ),
    {
        let bg = background_code(self.ground);
        let fg = foreground_code(self.plant);
        let c = plant_glyphs(&self.plant);
        [
            ansi_string(bg, fg, c[0]),
            ansi_string(bg, fg, c[1]),
            ansi_string(bg, fg, c[2]),
            ansi_string(bg, fg, c[3]),
            ansi_string(bg, fg, c[4]),
            ansi_string(bg, fg, c[5]),
            ansi_string(bg, fg, c[6]),
            ansi_string(bg, fg, c[7]),
        ]
    }
}

} // verus!
