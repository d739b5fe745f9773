//! Basic value types of the simulated world: `Compass`, `Dir`, `Coord` and `Polar`.
use vstd::prelude::*;

use crate::random::RandomUintGenerator;

verus! {

/// The eight compass directions plus `Center`, numbered 0..=8 as in
/// `Compass::index`.
#[derive(Debug, Clone, Copy, PartialEq, Eq, Structural, Hash)]
pub enum Compass {
    SW,
    S,
    SE,
    W,
    Center,
    E,
    NW,
    N,
    NE,
}

/// The number of a compass value: SW=0, S=1, SE=2, W=3, Center=4, E=5, NW=6, N=7, NE=8.
pub open spec fn compass_index(c: Compass) -> int {
    match c {
        Compass::SW => 0,
        Compass::S => 1,
        Compass::SE => 2,
        Compass::W => 3,
        Compass::Center => 4,
        Compass::E => 5,
        Compass::NW => 6,
        Compass::N => 7,
        Compass::NE => 8,
    }
}

/// Position of a non-center direction when walking clockwise from north:
/// N=0, NE=1, E=2, SE=3, S=4, SW=5, W=6, NW=7 (Center has none; -1).
pub open spec fn clockwise_position(c: Compass) -> int {
    match c {
        Compass::N => 0,
        Compass::NE => 1,
        Compass::E => 2,
        Compass::SE => 3,
        Compass::S => 4,
        Compass::SW => 5,
        Compass::W => 6,
        Compass::NW => 7,
        Compass::Center => -1,
    }
}

/// The direction at clockwise position `p` (0..8, starting at north).
pub open spec fn compass_at_clockwise_position(p: int) -> Compass {
    if p == 0 {
        Compass::N
    } else if p == 1 {
        Compass::NE
    } else if p == 2 {
        Compass::E
    } else if p == 3 {
        Compass::SE
    } else if p == 4 {
        Compass::S
    } else if p == 5 {
        Compass::SW
    } else if p == 6 {
        Compass::W
    } else {
        Compass::NW
    }
}

/// `c` turned clockwise by `n` eighths of a full turn (counter-clockwise
/// for negative `n`); `Center` stays `Center`.
pub open spec fn rotated(c: Compass, n: int) -> Compass {
    if c == Compass::Center {
        Compass::Center
    } else {
        compass_at_clockwise_position((clockwise_position(c) + n) % 8)
    }
}

/// The unit step of a direction: x grows to the east, y grows to the north.
pub open spec fn unit_x(c: Compass) -> int {
    match c {
        Compass::SW | Compass::W | Compass::NW => -1,
        Compass::S | Compass::Center | Compass::N => 0,
        Compass::SE | Compass::E | Compass::NE => 1,
    }
}

pub open spec fn unit_y(c: Compass) -> int {
    match c {
        Compass::SW | Compass::S | Compass::SE => -1,
        Compass::W | Compass::Center | Compass::E => 0,
        Compass::NW | Compass::N | Compass::NE => 1,
    }
}

/// `v` reduced to the range of `i16` the way two's complement arithmetic wraps.
pub open spec fn wrap_i16(v: int) -> int {
    let m = v % 65536;
    if m >= 32768 {
        m - 65536
    } else {
        m
    }
}

/// One of the eight directions or `Center`.
#[derive(Debug, Clone, Copy, PartialEq, Eq, Structural, Hash)]
pub struct Dir {
    pub dir9: Compass,
}

impl Dir {
    /// A direction drawn from the eight non-center ones by
    /// `random_uint_range(0, 7)`, numbered SW, S, SE, W, E, NW, N, NE.
    pub fn random8(rng: &mut RandomUintGenerator) -> (d: Dir)
        ensures
            final(rng)@ == old(rng)@.next_state(),
            d.dir9 == random8_choice((old(rng)@.next_output() % 8) as int),
            d.dir9 != Compass::Center,
    {
        let k = rng.next_range(0, 7);
        let dir9 = if k == 0 {
            Compass::SW
        } else if k == 1 {
            Compass::S
        } else if k == 2 {
            Compass::SE
        } else if k == 3 {
            Compass::W
        } else if k == 4 {
            Compass::E
        } else if k == 5 {
            Compass::NW
        } else if k == 6 {
            Compass::N
        } else {
            Compass::NE
        };
        Dir { dir9 }
    }

    pub fn new(dir: Compass) -> (d: Dir)
        ensures
            d.dir9 == dir,
    {
        Dir { dir9: dir }
    }

    /// The number of this direction (see `compass_index`).
    pub fn as_int(&self) -> (r: u8)
        ensures
            r as int == compass_index(self.dir9),
    {
        match self.dir9 {
            Compass::SW => 0,
            Compass::S => 1,
            Compass::SE => 2,
            Compass::W => 3,
            Compass::Center => 4,
            Compass::E => 5,
            Compass::NW => 6,
            Compass::N => 7,
            Compass::NE => 8,
        }
    }

    /// The unit step in this direction; (0, 0) for `Center`.
    pub fn as_normalized_coord(&self) -> (c: Coord)
        ensures
            c.x as int == unit_x(self.dir9),
            c.y as int == unit_y(self.dir9),
    {
        match self.dir9 {
            Compass::SW => Coord { x: -1, y: -1 },
            Compass::S => Coord { x: 0, y: -1 },
            Compass::SE => Coord { x: 1, y: -1 },
            Compass::W => Coord { x: -1, y: 0 },
            Compass::Center => Coord { x: 0, y: 0 },
            Compass::E => Coord { x: 1, y: 0 },
            Compass::NW => Coord { x: -1, y: 1 },
            Compass::N => Coord { x: 0, y: 1 },
            Compass::NE => Coord { x: 1, y: 1 },
        }
    }

    /// A polar value of magnitude 1 in this direction.
    pub fn as_normalized_polar(&self) -> (p: Polar)
        ensures
            p.mag == 1,
            p.dir == *self,
    {
        Polar { mag: 1, dir: *self }
    }

    /// This direction turned clockwise by `n` eighths of a turn
    /// (counter-clockwise for negative `n`); `Center` stays `Center`.
    pub fn rotate(&self, n: i32) -> (d: Dir)
        ensures
            d.dir9 == rotated(self.dir9, n as int),
    {
        let m = n % 8;
        let k: i32 = if m < 0 {
            m + 8
        } else {
            m
        };
        assert(k as int == (n as int) % 8);
        let p: i32 = match self.dir9 {
            Compass::N => 0,
            Compass::NE => 1,
            Compass::E => 2,
            Compass::SE => 3,
            Compass::S => 4,
            Compass::SW => 5,
            Compass::W => 6,
            Compass::NW => 7,
            Compass::Center => {
                return Dir { dir9: Compass::Center };
            },
        };
        let q = (p + k) % 8;
        assert(q as int == (clockwise_position(self.dir9) + n as int) % 8) by {
            lemma_add_mod_8(clockwise_position(self.dir9), n as int);
        }
        let dir9 = if q == 0 {
            Compass::N
        } else if q == 1 {
            Compass::NE
        } else if q == 2 {
            Compass::E
        } else if q == 3 {
            Compass::SE
        } else if q == 4 {
            Compass::S
        } else if q == 5 {
            Compass::SW
        } else if q == 6 {
            Compass::W
        } else {
            Compass::NW
        };
        Dir { dir9 }
    }

    pub fn rotate90_deg_cw(&self) -> (d: Dir)
        ensures
            d.dir9 == rotated(self.dir9, 2),
    {
        self.rotate(2)
    }

    pub fn rotate90_deg_ccw(&self) -> (d: Dir)
        ensures
            d.dir9 == rotated(self.dir9, -2),
    {
        self.rotate(-2)
    }

    pub fn rotate180_deg(&self) -> (d: Dir)
        ensures
            d.dir9 == rotated(self.dir9, 4),
    {
        self.rotate(4)
    }

    /// The same as `Dir::new`, for call sites that convert from `Compass`.
    pub fn from_compass(dir: Compass) -> (d: Dir)
        ensures
            d.dir9 == dir,
    {
        Dir { dir9: dir }
    }
}

impl Default for Dir {
    fn default() -> (d: Dir)
        ensures
            d.dir9 == Compass::Center,
    {
        Dir { dir9: Compass::Center }
    }
}

/// The direction `random8` picks for the value `k` drawn from 0..=7.
pub open spec fn random8_choice(k: int) -> Compass {
    if k == 0 {
        Compass::SW
    } else if k == 1 {
        Compass::S
    } else if k == 2 {
        Compass::SE
    } else if k == 3 {
        Compass::W
    } else if k == 4 {
        Compass::E
    } else if k == 5 {
        Compass::NW
    } else if k == 6 {
        Compass::N
    } else {
        Compass::NE
    }
}

proof fn lemma_add_mod_8(a: int, n: int)
    ensures
        (a + n % 8) % 8 == (a + n) % 8,
{
    vstd::arithmetic::div_mod::lemma_add_mod_noop(a, n, 8);
    vstd::arithmetic::div_mod::lemma_mod_twice(a, 8);
    vstd::arithmetic::div_mod::lemma_add_mod_noop(a, n % 8, 8);
    vstd::arithmetic::div_mod::lemma_mod_twice(n, 8);
}

/// A location in the grid, or the difference between two locations.
#[derive(Debug, Clone, Copy, PartialEq, Eq, Structural, Hash)]
pub struct Coord {
    pub x: i16,
    pub y: i16,
}

impl Default for Coord {
    fn default() -> (c: Coord)
        ensures
            c.x == 0 && c.y == 0,
    {
        Coord { x: 0, y: 0 }
    }
}


/// The squared Euclidean length of the vector (x, y).
pub open spec fn squared_length(x: int, y: int) -> int {
    x * x + y * y
}

/// The sector that the vector (x, y) points into: the vector is rotated by
/// +-22.5 degrees (tan 22.5 approximated by 13860/33461) and the signs and
/// order of the rotated components pick one of the nine directions.
pub open spec fn direction_of(x: int, y: int) -> Compass {
    let xp = x * 33461 + y * 13860;
    let yp = y * 33461 - x * 13860;
    let idx = (if yp > 0 { 8int } else { 0int }) + (if xp > 0 { 4int } else { 0int }) + (if yp > xp {
        2int
    } else {
        0int
    }) + (if yp >= -xp { 1int } else { 0int });
    sector_direction(idx)
}

/// The table from sector number to direction used by `direction_of`.
pub open spec fn sector_direction(idx: int) -> Compass {
    if idx == 0 {
        Compass::S
    } else if idx == 1 {
        Compass::Center
    } else if idx == 2 {
        Compass::SW
    } else if idx == 4 {
        Compass::SE
    } else if idx == 5 {
        Compass::E
    } else if idx == 10 {
        Compass::W
    } else if idx == 11 {
        Compass::NW
    } else if idx == 13 {
        Compass::NE
    } else {
        Compass::N
    }
}

/// `v` in `i32` reduced to `i16` with two's complement wrap-around.
fn wrap_to_i16(v: i32) -> (r: i16)
    ensures
        r as int == wrap_i16(v as int),
{
    let m = v % 65536;
    let m = if m < 0 {
        m + 65536
    } else {
        m
    };
    assert(m as int == (v as int) % 65536);
    let m = if m >= 32768 {
        m - 65536
    } else {
        m
    };
    m as i16
}

/// The floor of the square root of a nonnegative `n`.
pub open spec fn floor_sqrt(n: int) -> int {
    choose|r: int| is_floor_sqrt(n, r)
}

/// `r` is the floor of the square root of `n`.
pub open spec fn is_floor_sqrt(n: int, r: int) -> bool {
    0 <= r && r * r <= n < (r + 1) * (r + 1)
}

/// Every natural number has a floor square root.
proof fn lemma_floor_sqrt_exists(n: int) -> (r: int)
    requires
        n >= 0,
    ensures
        is_floor_sqrt(n, r),
    decreases n,
{
    if n == 0 {
        assert(is_floor_sqrt(0, 0)) by (nonlinear_arith);
        0
    } else {
        let r = lemma_floor_sqrt_exists(n - 1);
        if (r + 1) * (r + 1) <= n {
            let q = r + 1;
            assert(is_floor_sqrt(n, q)) by (nonlinear_arith)
                requires
                    0 <= r,
                    q == r + 1,
                    n - 1 < (r + 1) * (r + 1),
                    (r + 1) * (r + 1) <= n,
            ;
            q
        } else {
            assert(is_floor_sqrt(n, r)) by (nonlinear_arith)
                requires
                    is_floor_sqrt(n - 1, r),
                    !((r + 1) * (r + 1) <= n),
            ;
            r
        }
    }
}

/// A distance is never negative, and at most `0x10000`.
pub proof fn lemma_distance_nonnegative(a: Coord, b: Coord)
    ensures
        0 <= distance(a, b) <= 0x10000,
{
    let x = wrap_i16(a.x - b.x);
    let y = wrap_i16(a.y - b.y);
    assert(squared_length(x, y) >= 0) by (nonlinear_arith);
    let r = lemma_floor_sqrt_exists(squared_length(x, y));
    let n = squared_length(x, y);
    let f = floor_sqrt(n);
    assert(is_floor_sqrt(n, f));
    assert(-32768 <= x <= 32767 && -32768 <= y <= 32767);
    assert(n <= 0x8000_0000) by (nonlinear_arith)
        requires
            -32768 <= x <= 32767,
            -32768 <= y <= 32767,
            n == x * x + y * y,
    ;
    assert(f <= 0x10000) by (nonlinear_arith)
        requires
            0 <= f,
            f * f <= n,
            n <= 0x8000_0000,
    ;
}

/// The floor of the square root is the one `r` with `r * r <= n < (r + 1) * (r + 1)`.
pub proof fn lemma_floor_sqrt(n: int, r: int)
    requires
        0 <= r,
        r * r <= n < (r + 1) * (r + 1),
    ensures
        floor_sqrt(n) == r,
{
    assert(is_floor_sqrt(n, r));
    let f = floor_sqrt(n);
    assert(is_floor_sqrt(n, f));
    if f < r {
        assert((f + 1) * (f + 1) <= r * r) by (nonlinear_arith)
            requires
                0 <= f < r,
        ;
    }
    if r < f {
        assert((r + 1) * (r + 1) <= f * f) by (nonlinear_arith)
            requires
                0 <= r < f,
        ;
    }
}

/// The rounded-down length of `a - b` (componentwise difference wrapping
/// like `i16`).
pub open spec fn distance(a: Coord, b: Coord) -> int {
    floor_sqrt(squared_length(wrap_i16(a.x - b.x), wrap_i16(a.y - b.y)))
}

/// The rounded-down length of `a - b`.
pub fn distance_between(a: Coord, b: Coord) -> (d: u32)
    ensures
        d == distance(a, b),
        d <= 0x10000,
{
    let v = a.sub(b);
    let d = v.length();
    proof {
        lemma_floor_sqrt(squared_length(v.x as int, v.y as int), d as int);
    }
    d
}

/// Floor of the square root of `n`.
pub fn isqrt(n: u64) -> (r: u64)
    ensures
        r * r <= n,
        n < (r + 1) * (r + 1),
{
    let mut lo: u64 = 0;
    let mut hi: u64 = 0x1_0000_0000;
    assert(hi * hi == 0x1_0000_0000_0000_0000) by (nonlinear_arith)
        requires
            hi == 0x1_0000_0000u64,
    ;
    while hi - lo > 1
        invariant
            lo < hi <= 0x1_0000_0000,
            lo * lo <= n,
            n < hi * hi,
        decreases hi - lo,
    {
        let mid = lo + (hi - lo) / 2;
        assert(mid * mid < 0x1_0000_0000_0000_0000) by (nonlinear_arith)
            requires
                mid < 0x1_0000_0000,
        ;
        let sq = (mid as u128) * (mid as u128);
        if sq <= n as u128 {
            lo = mid;
        } else {
            hi = mid;
        }
    }
    assert(hi == lo + 1);
    lo
}

impl Coord {
    pub fn new(x: i16, y: i16) -> (c: Coord)
        ensures
            c.x == x && c.y == y,
    {
        Coord { x, y }
    }

    /// True when both components are in -1..=1.
    pub fn is_normalized(&self) -> (b: bool)
        ensures
            b == (-1 <= self.x <= 1 && -1 <= self.y <= 1),
    {
        self.x >= -1 && self.x <= 1 && self.y >= -1 && self.y <= 1
    }

    /// The unit step in the direction of this vector.
    pub fn normalize(&self) -> (c: Coord)
        ensures
            c.x as int == unit_x(direction_of(self.x as int, self.y as int)),
            c.y as int == unit_y(direction_of(self.x as int, self.y as int)),
    {
        self.as_dir().as_normalized_coord()
    }

    /// The Euclidean length of the vector, rounded down.
    pub fn length(&self) -> (r: u32)
        ensures
            r * r <= squared_length(self.x as int, self.y as int),
            squared_length(self.x as int, self.y as int) < (r + 1) * (r + 1),
            r <= 0x10000,
    {
        let x = self.x as i64;
        let y = self.y as i64;
        assert(0 <= x * x <= 0x4000_0000) by (nonlinear_arith)
            requires
                -32768 <= x <= 32767,
        ;
        assert(0 <= y * y <= 0x4000_0000) by (nonlinear_arith)
            requires
                -32768 <= y <= 32767,
        ;
        let n = (x * x + y * y) as u64;
        let r = isqrt(n);
        assert(r <= 0x10000) by (nonlinear_arith)
            requires
                r * r <= n,
                n <= 0x8000_0000,
        ;
        r as u32
    }

    /// The direction this vector points to (see `direction_of`).
    pub fn as_dir(&self) -> (d: Dir)
        ensures
            d.dir9 == direction_of(self.x as int, self.y as int),
    {
        let x = self.x as i32;
        let y = self.y as i32;
        let xp: i32 = x * 33461 + y * 13860;
        let yp: i32 = y * 33461 - x * 13860;
        let mut idx: u8 = 0;
        if yp > 0 {
            idx = idx + 8;
        }
        if xp > 0 {
            idx = idx + 4;
        }
        if yp > xp {
            idx = idx + 2;
        }
        if yp >= -xp {
            idx = idx + 1;
        }
        let dir9 = if idx == 0 {
            Compass::S
        } else if idx == 1 {
            Compass::Center
        } else if idx == 2 {
            Compass::SW
        } else if idx == 4 {
            Compass::SE
        } else if idx == 5 {
            Compass::E
        } else if idx == 10 {
            Compass::W
        } else if idx == 11 {
            Compass::NW
        } else if idx == 13 {
            Compass::NE
        } else {
            Compass::N
        };
        Dir { dir9 }
    }

    /// The vector as rounded-down length and direction.
    pub fn as_polar(&self) -> (p: Polar)
        ensures
            p.mag >= 0,
            p.mag * p.mag <= squared_length(self.x as int, self.y as int),
            squared_length(self.x as int, self.y as int) < (p.mag + 1) * (p.mag + 1),
            p.dir.dir9 == direction_of(self.x as int, self.y as int),
    {
        let len = self.length();
        Polar { mag: len as i32, dir: self.as_dir() }
    }

    /// Componentwise sum, wrapping like `i16`.
    pub fn add(self, other: Coord) -> (c: Coord)
        ensures
            c.x as int == wrap_i16(self.x + other.x),
            c.y as int == wrap_i16(self.y + other.y),
    {
        Coord {
            x: wrap_to_i16(self.x as i32 + other.x as i32),
            y: wrap_to_i16(self.y as i32 + other.y as i32),
        }
    }

    /// Componentwise difference, wrapping like `i16`.
    pub fn sub(self, other: Coord) -> (c: Coord)
        ensures
            c.x as int == wrap_i16(self.x - other.x),
            c.y as int == wrap_i16(self.y - other.y),
    {
        Coord {
            x: wrap_to_i16(self.x as i32 - other.x as i32),
            y: wrap_to_i16(self.y as i32 - other.y as i32),
        }
    }

    /// Both components multiplied by `a` (the product must fit in `i32`),
    /// then reduced to `i16` with wrap-around.
    pub fn mul(self, a: i32) -> (c: Coord)
        requires
            i32::MIN <= self.x * a <= i32::MAX,
            i32::MIN <= self.y * a <= i32::MAX,
        ensures
            c.x as int == wrap_i16(self.x * a),
            c.y as int == wrap_i16(self.y * a),
    {
        Coord { x: wrap_to_i16(self.x as i32 * a), y: wrap_to_i16(self.y as i32 * a) }
    }

    /// One step in direction `d` from this location.
    pub fn add_dir(self, d: Dir) -> (c: Coord)
        ensures
            c.x as int == wrap_i16(self.x + unit_x(d.dir9)),
            c.y as int == wrap_i16(self.y + unit_y(d.dir9)),
    {
        self.add(d.as_normalized_coord())
    }

    /// One step against direction `d` from this location.
    pub fn sub_dir(self, d: Dir) -> (c: Coord)
        ensures
            c.x as int == wrap_i16(self.x - unit_x(d.dir9)),
            c.y as int == wrap_i16(self.y - unit_y(d.dir9)),
    {
        self.sub(d.as_normalized_coord())
    }
}

/// The fixed-point (32.32) length of one unit step in direction `c`:
/// 1 for the four axis directions, 1/sqrt(2) for the diagonals, 0 for `Center`.
pub open spec fn unit_step_length(c: Compass) -> int {
    match c {
        Compass::SW | Compass::SE | Compass::NW | Compass::NE => 3037000500,
        Compass::S | Compass::W | Compass::E | Compass::N => 0x1_0000_0000,
        Compass::Center => 0,
    }
}

/// `v / d` rounded toward zero, for `d > 0`.
pub open spec fn div_toward_zero(v: int, d: int) -> int {
    if v >= 0 {
        v / d
    } else {
        -((-v) / d)
    }
}

/// The number of unit steps `Polar::as_coord` takes for magnitude `mag` in
/// direction `c`: `mag * unit_step_length(c) / 2**32`, rounded to nearest
/// with halves going toward zero for positive and away from zero for
/// negative magnitudes.
pub open spec fn polar_steps(mag: int, c: Compass) -> int {
    let bias = if mag < 0 { -0x8000_0000int } else { 0x7fff_ffffint };
    div_toward_zero(unit_step_length(c) * mag + bias, 0x1_0000_0000)
}

/// A signed magnitude and a direction.
#[derive(Debug, Clone, Copy)]
pub struct Polar {
    pub mag: i32,
    pub dir: Dir,
}

impl Polar {
    pub fn new(mag: i32, dir: Compass) -> (p: Polar)
        ensures
            p.mag == mag,
            p.dir.dir9 == dir,
    {
        Polar { mag, dir: Dir::new(dir) }
    }

    pub fn new_with_dir(mag: i32, dir: Dir) -> (p: Polar)
        ensures
            p.mag == mag,
            p.dir == dir,
    {
        Polar { mag, dir }
    }

    /// The vector of `polar_steps(mag, dir)` unit steps in direction `dir`.
    pub fn as_coord(&self) -> (c: Coord)
        requires
            self.mag == i32::MIN ==> unit_step_length(self.dir.dir9) != 0x1_0000_0000,
        ensures
            c.x as int == wrap_i16(unit_x(self.dir.dir9) * polar_steps(self.mag as int, self.dir.dir9)),
            c.y as int == wrap_i16(unit_y(self.dir.dir9) * polar_steps(self.mag as int, self.dir.dir9)),
    {
        let d = self.dir.dir9;
        let k: i64 = match d {
            Compass::SW | Compass::SE | Compass::NW | Compass::NE => 3037000500,
            Compass::S | Compass::W | Compass::E | Compass::N => 0x1_0000_0000,
            Compass::Center => 0,
        };
        let m = self.mag as i64;
        assert(-0x8000_0000_0000_0000 <= k * m <= 0x7fff_ffff_0000_0000) by (nonlinear_arith)
            requires
                0 <= k <= 0x1_0000_0000,
                -0x8000_0000 <= m <= 0x7fff_ffff,
        ;
        assert(k * m >= -0x8000_0000_0000_0000 + 0x8000_0000 || m >= 0) by (nonlinear_arith)
            requires
                0 <= k <= 0x1_0000_0000,
                -0x8000_0000 <= m <= 0x7fff_ffff,
                m == -0x8000_0000 ==> k != 0x1_0000_0000,
                k == 0x1_0000_0000 || k == 3037000500 || k == 0,
        ;
        let bias: i64 = if m < 0 {
            -0x8000_0000
        } else {
            0x7fff_ffff
        };
        let v = k * m + bias;
        let len: i64 = if v >= 0 {
            v / 0x1_0000_0000
        } else {
            -((-v) / 0x1_0000_0000)
        };
        assert(-0x7fff_ffff <= len <= 0x7fff_ffff);
        let unit = self.dir.as_normalized_coord();
        let l = len as i32;
        assert(i32::MIN <= unit.x * l <= i32::MAX && i32::MIN <= unit.y * l <= i32::MAX)
            by (nonlinear_arith)
            requires
                -1 <= unit.x <= 1,
                -1 <= unit.y <= 1,
                -0x7fff_ffff <= l <= 0x7fff_ffff,
        ;
        unit.mul(l)
    }

    /// The polar form of a vector (see `Coord::as_polar`).
    pub fn from_coord(coord: Coord) -> (p: Polar)
        ensures
            p.mag >= 0,
            p.mag * p.mag <= squared_length(coord.x as int, coord.y as int),
            squared_length(coord.x as int, coord.y as int) < (p.mag + 1) * (p.mag + 1),
            p.dir.dir9 == direction_of(coord.x as int, coord.y as int),
    {
        coord.as_polar()
    }
}


/// Turning by `a` eighths and then by `b` eighths is turning by `a + b` eighths.
pub proof fn lemma_rotate_compose(c: Compass, a: int, b: int)
    ensures
        rotated(rotated(c, a), b) == rotated(c, a + b),
{
    if c != Compass::Center {
        let p = clockwise_position(c);
        let q = (p + a) % 8;
        assert(clockwise_position(compass_at_clockwise_position(q)) == q);
        vstd::arithmetic::div_mod::lemma_add_mod_noop(p + a, b, 8);
        vstd::arithmetic::div_mod::lemma_mod_twice(b, 8);
        vstd::arithmetic::div_mod::lemma_add_mod_noop(q, b, 8);
        vstd::arithmetic::div_mod::lemma_mod_twice(p + a, 8);
    }
}

/// A whole number of full turns leaves every direction unchanged.
pub proof fn lemma_rotate_full_turns(c: Compass, k: int)
    ensures
        rotated(c, 8 * k) == c,
{
    if c != Compass::Center {
        let p = clockwise_position(c);
        vstd::arithmetic::div_mod::lemma_mod_multiples_vanish(k, p, 8);
        vstd::arithmetic::div_mod::lemma_small_mod(p as nat, 8);
    }
}

/// A quarter turn clockwise undone by a quarter turn counter-clockwise (and
/// two half turns) give back the starting direction.
pub proof fn lemma_rotate_inverses(c: Compass)
    ensures
        rotated(rotated(c, 2), -2) == c,
        rotated(rotated(c, -2), 2) == c,
        rotated(rotated(c, 4), 4) == c,
{
    lemma_rotate_compose(c, 2, -2);
    lemma_rotate_compose(c, -2, 2);
    lemma_rotate_compose(c, 4, 4);
    lemma_rotate_full_turns(c, 0);
    lemma_rotate_full_turns(c, 1);
}

/// The unit step of a direction points back into that direction, so
/// normalizing a unit step gives the same step.
pub proof fn lemma_unit_step_direction(c: Compass)
    ensures
        direction_of(unit_x(c), unit_y(c)) == c,
{
}

/// A normalized polar value converts back to the unit step of its direction.
pub proof fn lemma_normalized_polar_as_coord(c: Compass)
    ensures
        wrap_i16(unit_x(c) * polar_steps(1, c)) == unit_x(c),
        wrap_i16(unit_y(c) * polar_steps(1, c)) == unit_y(c),
{
    assert(polar_steps(1, c) == if c == Compass::Center { 0int } else { 1int });
}

/// Adding a vector and then subtracting it again gives back the starting
/// coordinate, even when the sum wraps.
pub proof fn lemma_add_sub_inverse(a: Coord, b: Coord)
    ensures
        wrap_i16(wrap_i16(a.x + b.x) - b.x) == a.x,
        wrap_i16(wrap_i16(a.y + b.y) - b.y) == a.y,
{
}

} // verus!
