//! The 2D arena: one 16-bit cell per location holding `EMPTY`, `BARRIER`
//! or the index of the individual standing there.
use vstd::prelude::*;

use crate::basic_types::{isqrt, wrap_i16, Coord};
use crate::params::Params;
use crate::random::{random_uint_range, RandomUintGenerator, RngState};

verus! {

/// Cell value of an empty location (individual index 0 is reserved).
pub const EMPTY: u16 = 0;

/// Cell value of a barrier location.
pub const BARRIER: u16 = 0xffff;

/// The arena. Columns are stored one after another: location (x, y) is
/// element `x * height + y` of `data`.
pub struct Grid {
    data: Vec<u16>,
    sx: u16,
    sy: u16,
    barrier_locations: Vec<Coord>,
    barrier_centers: Vec<Coord>,
}

pub(crate) proof fn lemma_cell_index(x: int, y: int, w: int, h: int)
    requires
        0 <= x < w,
        0 <= y < h,
    ensures
        0 <= x * h + y < w * h,
        x * h + y >= x * h,
{
    assert(0 <= x * h + y < w * h) by (nonlinear_arith)
        requires
            0 <= x < w,
            0 <= y < h,
    ;
}

pub(crate) proof fn lemma_cell_index_injective(x1: int, y1: int, x2: int, y2: int, h: int)
    requires
        0 <= y1 < h,
        0 <= y2 < h,
        0 <= x1,
        0 <= x2,
        x1 * h + y1 == x2 * h + y2,
    ensures
        x1 == x2 && y1 == y2,
{
    assert(x1 == x2) by (nonlinear_arith)
        requires
            0 <= y1 < h,
            0 <= y2 < h,
            0 <= x1,
            0 <= x2,
            x1 * h + y1 == x2 * h + y2,
    ;
}

impl Grid {
    /// The storage holds exactly one value per location.
    pub closed spec fn wf(&self) -> bool {
        &&& self.data.len() == self.sx as int * self.sy as int
        &&& (self.sx == 0 ==> self.sy == 0)
    }

    /// The number of columns.
    pub closed spec fn width(&self) -> nat {
        self.sx as nat
    }

    /// The number of rows (0 when there are no columns).
    pub closed spec fn height(&self) -> nat {
        self.sy as nat
    }

    /// The stored value of the in-bounds location (x, y).
    pub closed spec fn cell(&self, x: int, y: int) -> u16 {
        self.data@[x * self.sy + y]
    }

    /// The barrier locations recorded by `set_barrier_locations`.
    pub closed spec fn barrier_locations_view(&self) -> Seq<Coord> {
        self.barrier_locations@
    }

    /// The barrier centers recorded by `set_barrier_centers`.
    pub closed spec fn barrier_centers_view(&self) -> Seq<Coord> {
        self.barrier_centers@
    }

    /// True for locations inside the arena.
    pub open spec fn contains(&self, x: int, y: int) -> bool {
        0 <= x < self.width() && 0 <= y < self.height()
    }

    /// The value at (x, y); locations outside the arena read as `EMPTY`.
    pub open spec fn value_at(&self, x: int, y: int) -> u16 {
        if self.contains(x, y) {
            self.cell(x, y)
        } else {
            EMPTY
        }
    }

    /// The contents are `other`'s except at (x, y), which holds `val`.
    pub open spec fn same_except(&self, other: &Grid, x: int, y: int, val: u16) -> bool {
        &&& self.width() == other.width()
        &&& self.height() == other.height()
        &&& self.barrier_locations_view() == other.barrier_locations_view()
        &&& self.barrier_centers_view() == other.barrier_centers_view()
        &&& forall|i: int, j: int|
            #![trigger self.value_at(i, j)]
            self.value_at(i, j) == if i == x && j == y && other.contains(x, y) {
                val
            } else {
                other.value_at(i, j)
            }
    }

    /// An arena with no columns and no barriers.
    pub fn new() -> (g: Grid)
        ensures
            g.wf(),
            g.width() == 0,
            g.height() == 0,
            g.barrier_locations_view().len() == 0,
            g.barrier_centers_view().len() == 0,
    {
        Grid {
            data: Vec::new(),
            sx: 0,
            sy: 0,
            barrier_locations: Vec::new(),
            barrier_centers: Vec::new(),
        }
    }

    /// Makes the arena `size_x` by `size_y`, every location empty. The
    /// recorded barrier lists are kept.
    pub fn init(&mut self, size_x: u16, size_y: u16)
        requires
            old(self).wf(),
        ensures
            final(self).wf(),
            final(self).width() == size_x,
            final(self).height() == if size_x == 0 {
                0
            } else {
                size_y as int
            },
            forall|x: int, y: int| #[trigger] final(self).value_at(x, y) == EMPTY,
            final(self).barrier_locations_view() == old(self).barrier_locations_view(),
            final(self).barrier_centers_view() == old(self).barrier_centers_view(),
    {
        let sy: u16 = if size_x == 0 {
            0
        } else {
            size_y
        };
        assert(size_x as int * sy as int <= 0xfffe_0001) by (nonlinear_arith)
            requires
                size_x <= 0xffff,
                sy <= 0xffff,
        ;
        let n: usize = size_x as usize * sy as usize;
        let mut data: Vec<u16> = Vec::new();
        while data.len() < n
            invariant
                data.len() <= n,
                forall|i: int| 0 <= i < data.len() ==> data@[i] == 0,
            decreases n - data.len(),
        {
            data.push(0);
        }
        let mut barrier_locations = Vec::new();
        let mut barrier_centers = Vec::new();
        std::mem::swap(&mut barrier_locations, &mut self.barrier_locations);
        std::mem::swap(&mut barrier_centers, &mut self.barrier_centers);
        *self = Grid { data, sx: size_x, sy, barrier_locations, barrier_centers };
        assert forall|x: int, y: int| #[trigger] self.value_at(x, y) == EMPTY by {
            if self.contains(x, y) {
                lemma_cell_index(x, y, self.sx as int, self.sy as int);
            }
        }
    }

    /// Empties every location.
    pub fn zero_fill(&mut self)
        requires
            old(self).wf(),
        ensures
            final(self).wf(),
            final(self).width() == old(self).width(),
            final(self).height() == old(self).height(),
            forall|x: int, y: int| #[trigger] final(self).value_at(x, y) == EMPTY,
            final(self).barrier_locations_view() == old(self).barrier_locations_view(),
            final(self).barrier_centers_view() == old(self).barrier_centers_view(),
    {
        let w = self.sx;
        let h = self.sy;
        self.init(w, h);
    }

    pub fn size_x(&self) -> (r: u16)
        requires
            self.wf(),
        ensures
            r == self.width(),
    {
        self.sx
    }

    pub fn size_y(&self) -> (r: u16)
        requires
            self.wf(),
        ensures
            r == self.height(),
    {
        self.sy
    }

    pub fn is_in_bounds(&self, loc: Coord) -> (b: bool)
        requires
            self.wf(),
        ensures
            b == self.contains(loc.x as int, loc.y as int),
    {
        loc.x >= 0 && (loc.x as u16) < self.sx && loc.y >= 0 && (loc.y as u16) < self.sy
    }

    pub fn is_empty_at(&self, loc: Coord) -> (b: bool)
        requires
            self.wf(),
        ensures
            b == (self.value_at(loc.x as int, loc.y as int) == EMPTY),
    {
        self.at(loc) == EMPTY
    }

    pub fn is_barrier_at(&self, loc: Coord) -> (b: bool)
        requires
            self.wf(),
        ensures
            b == (self.value_at(loc.x as int, loc.y as int) == BARRIER),
    {
        self.at(loc) == BARRIER
    }

    /// True when an individual stands at `loc`.
    pub fn is_occupied_at(&self, loc: Coord) -> (b: bool)
        requires
            self.wf(),
        ensures
            b == (self.value_at(loc.x as int, loc.y as int) != EMPTY && self.value_at(
                loc.x as int,
                loc.y as int,
            ) != BARRIER),
    {
        let val = self.at(loc);
        val != EMPTY && val != BARRIER
    }

    /// True when `loc` is on the first or last column or row. The last
    /// column and row numbers are taken modulo 2**16 as `i16`.
    pub fn is_border(&self, loc: Coord) -> (b: bool)
        requires
            self.wf(),
            loc.x != 0 ==> self.width() > 0,
            (loc.x != 0 && loc.x != wrap_i16(self.width() - 1) && loc.y != 0) ==> self.height() > 0,
        ensures
            b == (loc.x == 0 || loc.x == wrap_i16(self.width() - 1) || loc.y == 0 || loc.y
                == wrap_i16(self.height() - 1)),
    {
        if loc.x == 0 {
            return true;
        }
        let last_x = wrap_u16_to_i16(self.sx - 1);
        if loc.x == last_x {
            return true;
        }
        if loc.y == 0 {
            return true;
        }
        let last_y = wrap_u16_to_i16(self.sy - 1);
        loc.y == last_y
    }

    /// The value at `loc` (`EMPTY` outside the arena).
    pub fn at(&self, loc: Coord) -> (r: u16)
        requires
            self.wf(),
        ensures
            r == self.value_at(loc.x as int, loc.y as int),
    {
        if !self.is_in_bounds(loc) {
            return EMPTY;
        }
        proof {
            lemma_cell_index(loc.x as int, loc.y as int, self.sx as int, self.sy as int);
        }
        self.data[loc.x as usize * self.sy as usize + loc.y as usize]
    }

    /// The value at (x, y) (`EMPTY` outside the arena).
    pub fn at_xy(&self, x: u16, y: u16) -> (r: u16)
        requires
            self.wf(),
        ensures
            r == self.value_at(x as int, y as int),
    {
        if x >= self.sx || y >= self.sy {
            return EMPTY;
        }
        proof {
            lemma_cell_index(x as int, y as int, self.sx as int, self.sy as int);
        }
        self.data[x as usize * self.sy as usize + y as usize]
    }

    /// Stores `val` at (x, y) when that location is inside the arena.
    fn store(&mut self, x: u16, y: u16, val: u16)
        requires
            old(self).wf(),
        ensures
            final(self).wf(),
            final(self).same_except(old(self), x as int, y as int, val),
    {
        if x < self.sx && y < self.sy {
            proof {
                lemma_cell_index(x as int, y as int, self.sx as int, self.sy as int);
            }
            let i = x as usize * self.sy as usize + y as usize;
            self.data.set(i, val);
            proof {
                assert forall|a: int, b: int| #[trigger]
                    self.value_at(a, b) == if a == x && b == y && old(self).contains(x as int, y as int) {
                        val
                    } else {
                        old(self).value_at(a, b)
                    } by {
                    if self.contains(a, b) {
                        lemma_cell_index(a, b, self.sx as int, self.sy as int);
                        if a * self.sy + b == x * self.sy + y {
                            lemma_cell_index_injective(a, b, x as int, y as int, self.sy as int);
                        }
                    }
                }
            }
        }
    }

    /// Stores `val` at `loc` when `loc` is inside the arena; otherwise
    /// nothing changes.
    pub fn set(&mut self, loc: Coord, val: u16)
        requires
            old(self).wf(),
        ensures
            final(self).wf(),
            final(self).same_except(old(self), loc.x as int, loc.y as int, val),
    {
        if loc.x >= 0 && loc.y >= 0 {
            self.store(loc.x as u16, loc.y as u16, val);
        }
    }

    /// Stores `val` at (x, y) when that location is inside the arena.
    pub fn set_xy(&mut self, x: u16, y: u16, val: u16)
        requires
            old(self).wf(),
        ensures
            final(self).wf(),
            final(self).same_except(old(self), x as int, y as int, val),
    {
        self.store(x, y, val);
    }

    pub fn get_barrier_locations(&self) -> (r: &[Coord])
        requires
            self.wf(),
        ensures
            r@ == self.barrier_locations_view(),
    {
        self.barrier_locations.as_slice()
    }

    pub fn get_barrier_centers(&self) -> (r: &[Coord])
        requires
            self.wf(),
        ensures
            r@ == self.barrier_centers_view(),
    {
        self.barrier_centers.as_slice()
    }

    pub fn set_barrier_locations(&mut self, locations: Vec<Coord>)
        requires
            old(self).wf(),
        ensures
            final(self).wf(),
            final(self).barrier_locations_view() == locations@,
            final(self).barrier_centers_view() == old(self).barrier_centers_view(),
            final(self).width() == old(self).width(),
            final(self).height() == old(self).height(),
            forall|x: int, y: int| #[trigger]
                final(self).value_at(x, y) == old(self).value_at(x, y),
    {
        self.barrier_locations = locations;
    }

    pub fn set_barrier_centers(&mut self, centers: Vec<Coord>)
        requires
            old(self).wf(),
        ensures
            final(self).wf(),
            final(self).barrier_centers_view() == centers@,
            final(self).barrier_locations_view() == old(self).barrier_locations_view(),
            final(self).width() == old(self).width(),
            final(self).height() == old(self).height(),
            forall|x: int, y: int| #[trigger]
                final(self).value_at(x, y) == old(self).value_at(x, y),
    {
        self.barrier_centers = centers;
    }
}

/// The location that two draws from the state `s` pick in an `sx` by `sy`
/// area: a column, then a row.
pub open spec fn drawn_location(s: RngState, sx: u16, sy: u16) -> Coord {
    Coord {
        x: wrap_i16((s.next_output() % (sx as u32)) as int) as i16,
        y: wrap_i16((s.next_state().next_output() % (sy as u32)) as int) as i16,
    }
}

/// The first of the random attempts `k` to 999 (attempt `k` drawing from
/// `s.advance(2 * k)`) whose location lies inside the grid and is empty,
/// with the number of draws taken up to it.
pub open spec fn random_empty_from(g: Grid, s: RngState, sx: u16, sy: u16, k: nat) -> Option<(Coord, nat)>
    decreases 1000 - k,
{
    if k >= 1000 {
        None
    } else {
        let c = drawn_location(s.advance(2 * k), sx, sy);
        if g.contains(c.x as int, c.y as int) && g.value_at(c.x as int, c.y as int) == EMPTY {
            Some((c, 2 * k + 2))
        } else {
            random_empty_from(g, s, sx, sy, k + 1)
        }
    }
}

/// The first location that reads as empty in the `ex` by `ey` area,
/// scanned row by row from position `t` on (row `t / ex`, column
/// `t % ex`).
pub open spec fn scan_empty_from(g: Grid, ex: int, ey: int, t: int) -> Option<Coord>
    decreases ex * ey - t,
{
    if ex <= 0 || ey <= 0 || t < 0 || t >= ex * ey {
        None
    } else if g.value_at(t % ex, t / ex) == EMPTY {
        Some(Coord { x: (t % ex) as i16, y: (t / ex) as i16 })
    } else {
        scan_empty_from(g, ex, ey, t + 1)
    }
}

/// Where `find_empty_location` puts a newcomer and how many draws it
/// takes from the state `s`: the first random attempt that finds an empty
/// location, else the first empty location in row order, else one more
/// random location.
pub open spec fn empty_location(g: Grid, sx: u16, sy: u16, s: RngState) -> (Coord, nat) {
    match random_empty_from(g, s, sx, sy, 0) {
        Some(r) => r,
        None => match scan_empty_from(g, wrap_i16(sx as int), wrap_i16(sy as int), 0) {
            Some(c) => (c, 2000),
            None => (drawn_location(s.advance(2000), sx, sy), 2002),
        },
    }
}

/// Position `y * ex + x` of the row-by-row scan is column `x` of row `y`,
/// and lies within the area.
proof fn lemma_row_position(x: int, y: int, ex: int, ey: int)
    requires
        0 <= x < ex,
        0 <= y < ey,
    ensures
        (y * ex + x) % ex == x,
        (y * ex + x) / ex == y,
        0 <= y * ex + x < ex * ey,
{
    vstd::arithmetic::div_mod::lemma_fundamental_div_mod_converse(y * ex + x, ex, y, x);
    assert(0 <= y * ex + x < ex * ey) by (nonlinear_arith)
        requires 0 <= x < ex, 0 <= y < ey;
}

impl Grid {
    /// A location for a newcomer within the arena of `params`.
    ///
    /// Up to 1000 random locations are drawn from `rng`; the first one that
    /// is inside the arena and empty is returned. After that, the area is
    /// scanned row by row and the first location that reads as empty is
    /// returned. If none does, one more random location is returned, which
    /// may be occupied.
    pub fn find_empty_location(&self, params: &Params, rng: &mut RandomUintGenerator) -> (r: Coord)
        requires
            self.wf(),
            params.size_x >= 1,
            params.size_y >= 1,
        ensures
            exists|n: nat| final(rng)@ == #[trigger] old(rng)@.advance(n),
            exists|vx: int, vy: int|
                0 <= vx < params.size_x && 0 <= vy < params.size_y && r.x == wrap_i16(vx) && r.y
                    == wrap_i16(vy),
            self.value_at(r.x as int, r.y as int) == EMPTY || forall|x: int, y: int|
                0 <= x < wrap_i16(params.size_x as int) && 0 <= y < wrap_i16(params.size_y as int)
                    ==> #[trigger] self.value_at(x, y) != EMPTY,
            r == empty_location(*self, params.size_x, params.size_y, old(rng)@).0,
            final(rng)@ == old(rng)@.advance(empty_location(*self, params.size_x, params.size_y, old(rng)@).1),
    {
        let size_x = params.size_x;
        let size_y = params.size_y;
        let ghost start = old(rng)@;
        let ghost g = *self;
        let ghost mut steps: nat = 0;
        let mut attempts: u32 = 0;
        while attempts < 1000
            invariant
                rng@ == start.advance(steps),
                steps == 2 * attempts,
                attempts <= 1000,
                start == old(rng)@,
                g == *self,
                size_x == params.size_x,
                size_y == params.size_y,
                size_x >= 1,
                size_y >= 1,
                self.wf(),
                random_empty_from(g, start, size_x, size_y, 0) == random_empty_from(
                    g,
                    start,
                    size_x,
                    size_y,
                    attempts as nat,
                ),
            decreases 1000 - attempts,
        {
            let ghost k = attempts as nat;
            let ghost s_k = rng@;
            attempts = attempts + 1;
            let vx = random_uint_range(rng, 0, size_x as u32 - 1);
            proof {
                assert(start.advance(steps + 1) == start.advance(steps).next_state());
                steps = steps + 1;
            }
            let vy = random_uint_range(rng, 0, size_y as u32 - 1);
            proof {
                assert(start.advance(steps + 1) == start.advance(steps).next_state());
                steps = steps + 1;
            }
            let loc = Coord { x: wrap_u16_to_i16(vx as u16), y: wrap_u16_to_i16(vy as u16) };
            proof {
                assert(s_k == start.advance(2 * k));
                assert(loc == drawn_location(start.advance(2 * k), size_x, size_y));
            }
            if self.is_in_bounds(loc) && self.is_empty_at(loc) {
                assert(old(rng)@.advance(steps) == rng@);
                return loc;
            }
        }
        let end_x = wrap_u16_to_i16(size_x);
        let end_y = wrap_u16_to_i16(size_y);
        let ghost ex = end_x as int;
        let ghost ey = end_y as int;
        let mut y: i16 = 0;
        while y < end_y
            invariant
                0 <= y,
                y <= end_y || end_y <= 0,
                end_x == wrap_i16(size_x as int),
                end_y == wrap_i16(size_y as int),
                ex == end_x,
                ey == end_y,
                rng@ == start.advance(steps),
                steps == 2000,
                start == old(rng)@,
                g == *self,
                size_x == params.size_x,
                size_y == params.size_y,
                self.wf(),
                random_empty_from(g, start, size_x, size_y, 0) is None,
                end_x > 0 ==> scan_empty_from(g, ex, ey, 0) == scan_empty_from(g, ex, ey, y * ex),
                end_x <= 0 ==> scan_empty_from(g, ex, ey, 0) is None,
                forall|a: int, b: int|
                    0 <= a < end_x && 0 <= b < y ==> #[trigger] self.value_at(a, b) != EMPTY,
            decreases end_y - y,
        {
            let mut x: i16 = 0;
            while x < end_x
                invariant
                    0 <= y < end_y,
                    0 <= x,
                    x <= end_x || end_x <= 0,
                    end_x == wrap_i16(size_x as int),
                    end_y == wrap_i16(size_y as int),
                    ex == end_x,
                    ey == end_y,
                    rng@ == start.advance(steps),
                    steps == 2000,
                    start == old(rng)@,
                    g == *self,
                    size_x == params.size_x,
                    size_y == params.size_y,
                    self.wf(),
                    random_empty_from(g, start, size_x, size_y, 0) is None,
                    end_x > 0 ==> scan_empty_from(g, ex, ey, 0) == scan_empty_from(g, ex, ey, y * ex + x),
                    forall|a: int, b: int|
                        (0 <= a < end_x && 0 <= b < y) || (0 <= a < x && b == y)
                            ==> #[trigger] self.value_at(a, b) != EMPTY,
                decreases end_x - x,
            {
                let loc = Coord { x, y };
                let ghost t = y * ex + x;
                proof {
                    lemma_row_position(x as int, y as int, ex, ey);
                }
                if self.is_empty_at(loc) {
                    assert(size_x < 32768 && size_y < 32768);
                    assert(wrap_i16(x as int) == x && wrap_i16(y as int) == y);
                    assert(old(rng)@.advance(steps) == rng@);
                    return loc;
                }
                x = x + 1;
            }
            proof {
                if end_x > 0 {
                    assert(y * ex + ex == (y + 1) * ex) by (nonlinear_arith);
                }
            }
            y = y + 1;
        }
        proof {
            if end_x > 0 {
                if end_y > 0 {
                    assert(y == end_y);
                    assert(y * ex == ex * ey) by (nonlinear_arith)
                        requires y == ey;
                }
            }
        }
        let vx = random_uint_range(rng, 0, size_x as u32 - 1);
        proof {
            assert(start.advance(steps + 1) == start.advance(steps).next_state());
            steps = steps + 1;
        }
        let vy = random_uint_range(rng, 0, size_y as u32 - 1);
        proof {
            assert(start.advance(steps + 1) == start.advance(steps).next_state());
            steps = steps + 1;
        }
        assert(old(rng)@.advance(steps) == rng@);
        Coord { x: wrap_u16_to_i16(vx as u16), y: wrap_u16_to_i16(vy as u16) }
    }
}

impl Default for Grid {
    fn default() -> (g: Grid)
        ensures
            g.wf(),
            g.width() == 0,
            g.height() == 0,
            g.barrier_locations_view().len() == 0,
            g.barrier_centers_view().len() == 0,
    {
        Grid::new()
    }
}

/// `v` reinterpreted as `i16` (two's complement).
pub fn wrap_u16_to_i16(v: u16) -> (r: i16)
    ensures
        r as int == wrap_i16(v as int),
{
    if v >= 32768 {
        (v as i32 - 65536) as i16
    } else {
        v as i16
    }
}


/// Column-then-row order of locations.
pub open spec fn coord_before(a: Coord, b: Coord) -> bool {
    a.x < b.x || (a.x == b.x && a.y < b.y)
}

/// The location (x, y) lies in the `w` by `h` area and at distance at most
/// `num / den` from `center`.
pub open spec fn in_neighborhood_xy(center: Coord, x: int, y: int, num: int, den: int, w: int, h: int) -> bool {
    &&& 0 <= x < w
    &&& 0 <= y < h
    &&& den * den * ((x - center.x) * (x - center.x) + (y - center.y) * (y - center.y)) <= num * num
}

/// A location of the disk of radius `num / den` around `center` that lies in the arena.
pub open spec fn in_neighborhood(center: Coord, c: Coord, num: int, den: int, w: int, h: int) -> bool {
    in_neighborhood_xy(center, c.x as int, c.y as int, num, den, w, h)
}

proof fn lemma_square_below_iff(a: int, n: int, s: int)
    requires
        a >= 0,
        s >= 0,
        s * s <= n,
        n < (s + 1) * (s + 1),
    ensures
        (a * a <= n) == (a <= s),
{
    if a <= s {
        assert(a * a <= s * s) by (nonlinear_arith)
            requires
                0 <= a <= s,
        ;
    } else {
        assert(a * a >= (s + 1) * (s + 1)) by (nonlinear_arith)
            requires
                a >= s + 1,
                s >= 0,
        ;
    }
}

proof fn lemma_mul_below_iff_div(den: int, k: int, s: int)
    requires
        den > 0,
        k >= 0,
        s >= 0,
    ensures
        (den * k <= s) == (k <= s / den),
{
    vstd::arithmetic::div_mod::lemma_fundamental_div_mod(s, den);
    vstd::arithmetic::div_mod::lemma_mod_pos_bound(s, den);
    let q = s / den;
    let r = s % den;
    assert(s == den * q + r && 0 <= r < den);
    if k <= q {
        assert(den * k <= den * q) by (nonlinear_arith)
            requires
                den > 0,
                k <= q,
        ;
    } else {
        assert(den * k >= den * q + den) by (nonlinear_arith)
            requires
                den > 0,
                k >= q + 1,
        ;
    }
}

/// For a column at horizontal offset `dx` inside the radius, the rows of the
/// disk are those with |dy| <= isqrt(num^2 - den^2 dx^2) / den.
proof fn lemma_column_extent(num: int, den: int, dx: int, dy: int, s: int)
    requires
        den > 0,
        num >= 0,
        s >= 0,
        s * s <= num * num - den * den * (dx * dx),
        num * num - den * den * (dx * dx) < (s + 1) * (s + 1),
    ensures
        (den * den * (dx * dx + dy * dy) <= num * num) == ((if dy < 0 {
            -dy
        } else {
            dy
        }) <= s / den),
{
    let ady = if dy < 0 {
        -dy
    } else {
        dy
    };
    let a = den * ady;
    assert(ady * ady == dy * dy) by (nonlinear_arith)
        requires
            ady == dy || ady == -dy,
    ;
    assert(den * den * (dx * dx + dy * dy) == den * den * (dx * dx) + a * a) by (nonlinear_arith)
        requires
            a == den * ady,
            ady * ady == dy * dy,
    ;
    assert(a >= 0) by (nonlinear_arith)
        requires
            den > 0,
            ady >= 0,
            a == den * ady,
    ;
    lemma_square_below_iff(a, num * num - den * den * (dx * dx), s);
    lemma_mul_below_iff_div(den, ady, s);
}

/// A column is inside the radius exactly when |dx| <= num / den.
proof fn lemma_row_extent(num: int, den: int, dx: int)
    requires
        den > 0,
        num >= 0,
    ensures
        (den * den * (dx * dx) <= num * num) == ((if dx < 0 {
            -dx
        } else {
            dx
        }) <= num / den),
        (den * den * (dx * dx) <= num * num) ==> den * (if dx < 0 {
            -dx
        } else {
            dx
        }) <= num,
{
    let adx = if dx < 0 {
        -dx
    } else {
        dx
    };
    let a = den * adx;
    assert(adx * adx == dx * dx) by (nonlinear_arith)
        requires
            adx == dx || adx == -dx,
    ;
    assert(num * num < (num + 1) * (num + 1)) by (nonlinear_arith)
        requires
            num >= 0,
    ;
    assert(den * den * (dx * dx) == a * a && a >= 0) by (nonlinear_arith)
        requires
            a == den * adx,
            adx * adx == dx * dx,
            adx >= 0,
            den > 0,
    ;
    lemma_square_below_iff(a, num * num, num);
    assert(num * num < (num + 1) * (num + 1)) by (nonlinear_arith)
        requires
            num >= 0,
    ;
    lemma_mul_below_iff_div(den, adx, num);
}

proof fn lemma_disk_needs_column(num: int, den: int, dx: int, dy: int)
    requires
        den > 0,
        den * den * (dx * dx + dy * dy) <= num * num,
    ensures
        den * den * (dx * dx) <= num * num,
{
    assert(den * den * (dy * dy) >= 0) by (nonlinear_arith);
    assert(den * den * (dx * dx + dy * dy) == den * den * (dx * dx) + den * den * (dy * dy))
        by (nonlinear_arith);
}

/// The locations of the arena within distance `radius_num / radius_den` of
/// `loc` (the center included), in column-then-row order. Only locations
/// inside the `size_x` by `size_y` area are listed.
pub fn visit_neighborhood(loc: Coord, radius_num: u64, radius_den: u64, size_x: u16, size_y: u16) -> (r:
    Vec<Coord>)
    requires
        0 < radius_den <= 0x8000_0000,
        radius_num <= 0x8000_0000,
    ensures
        forall|i: int|
            0 <= i < r.len() ==> in_neighborhood(
                loc,
                #[trigger] r@[i],
                radius_num as int,
                radius_den as int,
                size_x as int,
                size_y as int,
            ),
        forall|c: Coord|
            in_neighborhood(loc, c, radius_num as int, radius_den as int, size_x as int, size_y as int)
                ==> #[trigger] r@.contains(c),
        forall|i: int, j: int| 0 <= i < j < r.len() ==> coord_before(#[trigger] r@[i], #[trigger] r@[j]),
{
    let ghost gnum = radius_num as int;
    let ghost gden = radius_den as int;
    let num = radius_num as i64;
    let den = radius_den as i64;
    let rint: i64 = num / den;
    let lx = loc.x as i64;
    let ly = loc.y as i64;
    let w = size_x as i64;
    let h = size_y as i64;
    let mut x_lo = lx - rint;
    if x_lo < 0 {
        x_lo = 0;
    }
    let mut x_hi = lx + rint;
    if x_hi > w - 1 {
        x_hi = w - 1;
    }
    if x_hi > 32767 {
        x_hi = 32767;
    }
    let mut result: Vec<Coord> = Vec::new();
    let mut x = x_lo;
    assert forall|c: Coord| in_neighborhood(loc, c, gnum, gden, w as int, h as int) implies c.x
        >= x_lo by {
        lemma_disk_needs_column(gnum, gden, c.x - lx, c.y - ly);
        lemma_row_extent(gnum, gden, c.x - lx);
    }
    while x <= x_hi
        invariant
            0 <= x_lo <= x,
            x <= x_hi + 1 || x == x_lo,
            x_hi <= 32767,
            x_hi <= w - 1,
            x_hi <= lx + rint,
            x_lo >= lx - rint,
            rint == gnum / gden,
            gnum == num,
            gden == den,
            0 < den <= 0x8000_0000,
            0 <= num <= 0x8000_0000,
            lx == loc.x,
            ly == loc.y,
            w == size_x,
            h == size_y,
            forall|i: int|
                0 <= i < result.len() ==> in_neighborhood(
                    loc,
                    #[trigger] result@[i],
                    gnum,
                    gden,
                    w as int,
                    h as int,
                ) && result@[i].x < x,
            forall|c: Coord|
                in_neighborhood(loc, c, gnum, gden, w as int, h as int) && c.x < x
                    ==> #[trigger] result@.contains(c),
            forall|c: Coord| in_neighborhood(loc, c, gnum, gden, w as int, h as int) ==> c.x >= x_lo,
            forall|i: int, j: int|
                0 <= i < j < result.len() ==> coord_before(#[trigger] result@[i], #[trigger] result@[j]),
        decreases x_hi + 1 - x,
    {
        let dx = x - lx;
        let adx = if dx < 0 {
            -dx
        } else {
            dx
        };
        proof {
            assert(adx * adx == dx * dx) by (nonlinear_arith)
                requires
                    adx == dx || adx == -dx,
            ;
            lemma_row_extent(gnum, gden, dx as int);
            lemma_mul_below_iff_div(gden, adx as int, gnum);
            assert(den * adx <= num);
            assert(0 <= den * adx) by (nonlinear_arith)
                requires
                    den > 0,
                    adx >= 0,
            ;
            assert(num * num <= 0x4000_0000_0000_0000) by (nonlinear_arith)
                requires
                    0 <= num <= 0x8000_0000,
            ;
            assert((den * adx) * (den * adx) <= num * num) by (nonlinear_arith)
                requires
                    0 <= den * adx <= num,
            ;
            assert((den * adx) * (den * adx) == den * den * (dx * dx)) by (nonlinear_arith)
                requires
                    adx * adx == dx * dx,
            ;
        }
        let t = (den * adx) as u64;
        let nn = (num as u64) * (num as u64);
        let rem = nn - t * t;
        let s = isqrt(rem);
        proof {
            assert(s <= 0x8000_0000) by (nonlinear_arith)
                requires
                    s * s <= rem,
                    rem <= 0x4000_0000_0000_0000,
            ;
        }
        let s = s as i64;
        let ext = s / den;
        let mut y_lo = ly - ext;
        if y_lo < 0 {
            y_lo = 0;
        }
        let mut y_hi = ly + ext;
        if y_hi > h - 1 {
            y_hi = h - 1;
        }
        if y_hi > 32767 {
            y_hi = 32767;
        }
        let ghost result_before = result@;
        proof {
            assert forall|c: Coord| in_neighborhood(loc, c, gnum, gden, w as int, h as int) && c.x == x
                implies c.y >= y_lo && c.y <= y_hi by {
                lemma_column_extent(gnum, gden, dx as int, c.y - ly, s as int);
            }
        }
        let mut y = y_lo;
        while y <= y_hi
            invariant
                0 <= y_lo <= y,
                y <= y_hi + 1 || y == y_lo,
                y_hi <= 32767,
                y_hi <= h - 1,
                y_hi <= ly + ext,
                y_lo >= ly - ext,
                0 <= x_lo <= x <= x_hi,
                x_hi <= 32767,
                x_hi <= w - 1,
                dx == x - lx,
                ext == s / den,
                s * s <= num * num - den * den * (dx * dx),
                num * num - den * den * (dx * dx) < (s + 1) * (s + 1),
                s >= 0,
                gnum == num,
                gden == den,
                0 < den <= 0x8000_0000,
                0 <= num <= 0x8000_0000,
                lx == loc.x,
                ly == loc.y,
                w == size_x,
                h == size_y,
                forall|i: int|
                    0 <= i < result.len() ==> in_neighborhood(
                        loc,
                        #[trigger] result@[i],
                        gnum,
                        gden,
                        w as int,
                        h as int,
                    ) && (result@[i].x < x || (result@[i].x == x && result@[i].y < y)),
                forall|c: Coord|
                    in_neighborhood(loc, c, gnum, gden, w as int, h as int) && (c.x < x || (c.x == x
                        && c.y < y)) ==> #[trigger] result@.contains(c),
                forall|i: int, j: int|
                    0 <= i < j < result.len() ==> coord_before(
                        #[trigger] result@[i],
                        #[trigger] result@[j],
                    ),
            decreases y_hi + 1 - y,
        {
            let c = Coord { x: x as i16, y: y as i16 };
            proof {
                assert(c.x == x && c.y == y);
                lemma_column_extent(gnum, gden, dx as int, y - ly, s as int);
                assert(in_neighborhood(loc, c, gnum, gden, w as int, h as int));
            }
            let ghost before = result@;
            result.push(c);
            proof {
                assert forall|d: Coord|
                    in_neighborhood(loc, d, gnum, gden, w as int, h as int) && (d.x < x || (d.x == x
                        && d.y < y + 1)) implies #[trigger] result@.contains(d) by {
                    if d.x == x && d.y == y {
                        assert(d == c);
                        assert(result@[result.len() - 1] == c);
                    } else {
                        assert(before.contains(d));
                        let k = choose|k: int| 0 <= k < before.len() && before[k] == d;
                        assert(result@[k] == d);
                    }
                }
            }
            y = y + 1;
        }
        proof {
            assert forall|c: Coord|
                in_neighborhood(loc, c, gnum, gden, w as int, h as int) && c.x < x + 1 implies #[trigger] result@.contains(c) by {
                if c.x == x {
                    assert(c.y <= y_hi);
                }
            }
        }
        x = x + 1;
    }
    assert forall|c: Coord| in_neighborhood(loc, c, gnum, gden, w as int, h as int) implies #[trigger] result@.contains(c) by {
        lemma_disk_needs_column(gnum, gden, c.x - lx, c.y - ly);
        lemma_row_extent(gnum, gden, c.x - lx);
        assert(c.x <= x_hi);
    }
    result
}

/// A read gives back the last write: after a run of stores, each grid
/// being the one before with one location overwritten (see
/// `Grid::same_except`), a location inside the arena holds the value of
/// the last store to it, and every location outside reads as `EMPTY`.
pub proof fn lemma_read_last_write(grids: Seq<Grid>, writes: Seq<(Coord, u16)>, k0: int, loc: Coord, v: u16)
    requires
        grids.len() == writes.len() + 1,
        forall|k: int|
            0 <= k < writes.len() ==> grids[k + 1].same_except(
                &grids[k],
                writes[k].0.x as int,
                writes[k].0.y as int,
                writes[k].1,
            ),
        0 <= k0 < writes.len(),
        writes[k0] == (loc, v),
        forall|k: int| k0 < k < writes.len() ==> !(#[trigger] writes[k].0.x == loc.x && writes[k].0.y == loc.y),
        grids[0].contains(loc.x as int, loc.y as int),
    ensures
        grids.last().value_at(loc.x as int, loc.y as int) == v,
        forall|x: int, y: int| !grids.last().contains(x, y) ==> #[trigger] grids.last().value_at(x, y) == EMPTY,
    decreases writes.len(),
{
    let n = writes.len() as int;
    if k0 < n - 1 {
        lemma_read_last_write(grids.drop_last(), writes.drop_last(), k0, loc, v);
        assert(grids.drop_last().last() == grids[n - 1]);
        assert(!(writes[n - 1].0.x == loc.x && writes[n - 1].0.y == loc.y));
        assert(grids[n].same_except(&grids[n - 1], writes[n - 1].0.x as int, writes[n - 1].0.y as int, writes[n - 1].1));
    } else {
        assert forall|k: int| 0 <= k <= k0 implies #[trigger] grids[k].contains(loc.x as int, loc.y as int) by {
            lemma_store_sizes(grids, writes, k);
        }
        assert(grids[n].same_except(&grids[n - 1], loc.x as int, loc.y as int, v));
    }
}

proof fn lemma_store_sizes(grids: Seq<Grid>, writes: Seq<(Coord, u16)>, k: int)
    requires
        grids.len() == writes.len() + 1,
        forall|j: int|
            0 <= j < writes.len() ==> grids[j + 1].same_except(
                &grids[j],
                writes[j].0.x as int,
                writes[j].0.y as int,
                writes[j].1,
            ),
        0 <= k < grids.len(),
    ensures
        grids[k].width() == grids[0].width(),
        grids[k].height() == grids[0].height(),
    decreases k,
{
    if k > 0 {
        lemma_store_sizes(grids, writes, k - 1);
        assert(grids[k].same_except(&grids[k - 1], writes[k - 1].0.x as int, writes[k - 1].0.y as int, writes[k - 1].1));
    }
}

/// The barrier locations read back are those last recorded: after a
/// recording, operations that keep the recorded locations (every other
/// grid operation states that it does) leave them as recorded.
pub proof fn lemma_barrier_locations_kept(grids: Seq<Grid>, k0: int, locations: Seq<Coord>)
    requires
        0 <= k0 < grids.len(),
        grids[k0].barrier_locations_view() == locations,
        forall|k: int|
            k0 <= k < grids.len() - 1 ==> (#[trigger] grids[k + 1]).barrier_locations_view()
                == grids[k].barrier_locations_view(),
    ensures
        grids.last().barrier_locations_view() == locations,
    decreases grids.len() - k0,
{
    if k0 < grids.len() - 1 {
        lemma_barrier_locations_kept(grids, k0 + 1, locations);
    }
}

/// The number of the first `t` cells of a `w` by `h` area, in column
/// order (cell `t` is column `t / h`, row `t % h`), where `p` holds.
pub open spec fn count_where(p: spec_fn(int, int) -> bool, h: int, t: int) -> nat
    decreases t,
{
    if t <= 0 || h <= 0 {
        0
    } else {
        count_where(p, h, t - 1) + if p((t - 1) / h, (t - 1) % h) {
            1nat
        } else {
            0nat
        }
    }
}

/// The number of locations inside the arena that read as empty.
pub open spec fn empty_cells(g: Grid) -> nat {
    count_where(|x: int, y: int| g.value_at(x, y) == EMPTY, g.height() as int, (g.width() * g.height()) as int)
}

/// The number of locations inside the arena that no recorded barrier
/// location names: the room there is for individuals.
pub open spec fn open_cells(g: Grid) -> nat {
    count_where(
        |x: int, y: int|
            !exists|i: int|
                0 <= i < g.barrier_locations_view().len() && g.barrier_locations_view()[i].x == x
                    && g.barrier_locations_view()[i].y == y,
        g.height() as int,
        (g.width() * g.height()) as int,
    )
}

proof fn lemma_cell_decode(t: int, w: int, h: int)
    requires
        0 <= t < w * h,
        h > 0,
    ensures
        0 <= t / h < w,
        0 <= t % h < h,
        t == (t / h) * h + t % h,
{
    vstd::arithmetic::div_mod::lemma_fundamental_div_mod(t, h);
    assert(0 <= t % h < h) by {
        vstd::arithmetic::div_mod::lemma_mod_bound(t, h);
    }
    assert(0 <= t / h < w) by (nonlinear_arith)
        requires
            0 <= t < w * h,
            h > 0,
            t == h * (t / h) + t % h,
            0 <= t % h < h,
    ;
    assert(t == (t / h) * h + t % h) by (nonlinear_arith)
        requires
            t == h * (t / h) + t % h,
    ;
}

proof fn lemma_count_same(p: spec_fn(int, int) -> bool, q: spec_fn(int, int) -> bool, w: int, h: int, t: int)
    requires
        0 <= t <= w * h,
        forall|x: int, y: int| 0 <= x < w && 0 <= y < h ==> #[trigger] p(x, y) == q(x, y),
    ensures
        count_where(p, h, t) == count_where(q, h, t),
    decreases t,
{
    if t > 0 && h > 0 {
        lemma_count_same(p, q, w, h, t - 1);
        lemma_cell_decode(t - 1, w, h);
    }
}

proof fn lemma_count_none(p: spec_fn(int, int) -> bool, w: int, h: int, t: int)
    requires
        0 <= t <= w * h,
        forall|x: int, y: int| 0 <= x < w && 0 <= y < h ==> !#[trigger] p(x, y),
    ensures
        count_where(p, h, t) == 0,
    decreases t,
{
    if t > 0 && h > 0 {
        lemma_count_none(p, w, h, t - 1);
        lemma_cell_decode(t - 1, w, h);
    }
}

proof fn lemma_count_one_less(
    p: spec_fn(int, int) -> bool,
    q: spec_fn(int, int) -> bool,
    w: int,
    h: int,
    x0: int,
    y0: int,
    t: int,
)
    requires
        0 <= t <= w * h,
        0 <= x0 < w,
        0 <= y0 < h,
        p(x0, y0),
        !q(x0, y0),
        forall|x: int, y: int| 0 <= x < w && 0 <= y < h && !(x == x0 && y == y0) ==> #[trigger] p(x, y) == q(x, y),
    ensures
        count_where(q, h, t) + (if x0 * h + y0 < t {
            1nat
        } else {
            0nat
        }) == count_where(p, h, t),
    decreases t,
{
    if t > 0 && h > 0 {
        lemma_count_one_less(p, q, w, h, x0, y0, t - 1);
        lemma_cell_decode(t - 1, w, h);
        let c = t - 1;
        if c == x0 * h + y0 {
            vstd::arithmetic::div_mod::lemma_fundamental_div_mod_converse(c, h, x0, y0);
        } else if (c / h) == x0 && (c % h) == y0 {
            assert(c == x0 * h + y0);
        }
    }
}

/// An arena with no empty location has no empty cells to count.
pub proof fn lemma_full_has_no_empty_cells(g: Grid)
    requires
        forall|x: int, y: int| g.contains(x, y) ==> #[trigger] g.value_at(x, y) != EMPTY,
    ensures
        empty_cells(g) == 0,
{
    let w = g.width() as int;
    let h = g.height() as int;
    let p = |x: int, y: int| g.value_at(x, y) == EMPTY;
    assert forall|x: int, y: int| 0 <= x < w && 0 <= y < h implies !#[trigger] p(x, y) by {
        assert(g.contains(x, y));
    }
    lemma_count_none(p, w, h, w * h);
}

/// Storing a non-empty value on an empty location inside the arena leaves
/// one empty cell less and the room unchanged.
pub proof fn lemma_fill_one_cell(g0: Grid, g1: Grid, x0: int, y0: int, v: u16)
    requires
        g1.same_except(&g0, x0, y0, v),
        g0.contains(x0, y0),
        g0.value_at(x0, y0) == EMPTY,
        v != EMPTY,
    ensures
        empty_cells(g1) + 1 == empty_cells(g0),
        open_cells(g1) == open_cells(g0),
{
    let w = g0.width() as int;
    let h = g0.height() as int;
    let p = |x: int, y: int| g0.value_at(x, y) == EMPTY;
    let q = |x: int, y: int| g1.value_at(x, y) == EMPTY;
    assert forall|x: int, y: int| 0 <= x < w && 0 <= y < h && !(x == x0 && y == y0) implies #[trigger] p(x, y) == q(x, y) by {
        assert(g1.value_at(x, y) == g0.value_at(x, y));
    }
    assert(g1.value_at(x0, y0) == v);
    assert(0 <= x0 * h + y0 < w * h) by (nonlinear_arith)
        requires 0 <= x0 < w, 0 <= y0 < h;
    lemma_count_one_less(p, q, w, h, x0, y0, w * h);
    assert(empty_cells(g1) == count_where(q, h, w * h));
    assert(open_cells(g1) == open_cells(g0)) by {
        assert(g1.barrier_locations_view() == g0.barrier_locations_view());
    }
}

/// Where every location inside the arena is empty or a barrier, and the
/// barrier locations are exactly the recorded ones, the empty cells are
/// the room.
pub proof fn lemma_empty_is_open(g: Grid)
    requires
        forall|x: int, y: int| #[trigger] g.value_at(x, y) == EMPTY || g.value_at(x, y) == BARRIER,
        forall|x: int, y: int|
            g.contains(x, y) ==> (#[trigger] g.value_at(x, y) == BARRIER <==> exists|i: int|
                0 <= i < g.barrier_locations_view().len() && g.barrier_locations_view()[i].x == x
                    && g.barrier_locations_view()[i].y == y),
    ensures
        empty_cells(g) == open_cells(g),
{
    let w = g.width() as int;
    let h = g.height() as int;
    let p = |x: int, y: int| g.value_at(x, y) == EMPTY;
    let q = |x: int, y: int|
        !exists|i: int|
            0 <= i < g.barrier_locations_view().len() && g.barrier_locations_view()[i].x == x
                && g.barrier_locations_view()[i].y == y;
    assert forall|x: int, y: int| 0 <= x < w && 0 <= y < h implies #[trigger] p(x, y) == q(x, y) by {
        assert(g.contains(x, y));
        assert(g.value_at(x, y) == EMPTY || g.value_at(x, y) == BARRIER);
    }
    lemma_count_same(p, q, w, h, w * h);
}

} // verus!
