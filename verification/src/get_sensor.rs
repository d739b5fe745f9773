//! What an individual's sensors read from the world, as the integer
//! quantities each sensor value is computed from.
use vstd::prelude::*;

use crate::basic_types::{rotated, unit_x, unit_y, wrap_i16, Compass, Coord, Dir};
use crate::create_barrier::neighborhood_list;
use crate::grid::{visit_neighborhood, Grid, BARRIER, EMPTY};
use crate::indiv::Indiv;
use crate::params::Params;
use crate::peeps::Peeps;
use crate::random::{random_uint, RandomUintGenerator};
use crate::sensors_actions::Sensor;
use crate::signals::Signals;

verus! {

/// The quantities a sensor value is computed from; each maps to a value
/// in 0..=1.
pub enum SensorReading {
    /// 0.
    Zero,
    /// 0.5: no axis to sense along.
    Half,
    /// `num / den`.
    Quotient { num: u64, den: u64 },
    /// `num / den`, signed.
    SignedQuotient { num: i32, den: i32 },
    /// `num / (size / 2)`.
    HalfSizeFraction { num: i32, size: u16 },
    /// `coord / (size - 1)`.
    LocFraction { coord: i16, size: u16 },
    /// A unit component: -1 reads 0, 0 reads 0.5, 1 reads 1.
    Component(i16),
    /// The oscillator at phase `step_mod / period` of its cycle.
    Oscillator { step_mod: u32, period: u32 },
    /// The offsets of the other individuals in the neighborhood, to be
    /// projected on the axis of `dir`.
    PopulationAlongAxis { dir: Dir, offsets: Vec<Coord> },
    /// Free cells before a barrier forward and backward along an axis, out
    /// of `distance` each way.
    ShortProbe { fwd: u32, rev: u32, distance: u32 },
    /// A raw 32-bit random draw.
    Draw(u32),
    /// The summed signal levels of `count` cells.
    SignalDensity { sum: u128, count: u64 },
    /// The offsets and signal levels of the other cells of the
    /// neighborhood, to be projected on the axis of `dir`.
    SignalAlongAxis { dir: Dir, samples: Vec<(Coord, u8)> },
    /// The genetic similarity to the individual with this index.
    Similarity { other: u16 },
}

/// `p` moved by `d`, each component wrapping like `i16`.
pub open spec fn step(p: Coord, d: (int, int)) -> Coord {
    Coord { x: wrap_i16(p.x + d.0) as i16, y: wrap_i16(p.y + d.1) as i16 }
}

/// Walks from `p` by `d` while cells are inside the grid and pass the
/// test (no barrier, or empty when `need_empty`), at most `n` cells:
/// how many passed, where the walk stopped, and how many steps were left.
pub open spec fn walk(grid: &Grid, p: Coord, d: (int, int), n: nat, need_empty: bool) -> (nat, Coord, nat)
    decreases n,
{
    if n == 0 {
        (0, p, 0)
    } else if grid.contains(p.x as int, p.y as int) && (if need_empty {
        grid.value_at(p.x as int, p.y as int) == EMPTY
    } else {
        grid.value_at(p.x as int, p.y as int) != BARRIER
    }) {
        let r = walk(grid, step(p, d), d, (n - 1) as nat, need_empty);
        (r.0 + 1, r.1, r.2)
    } else {
        (0, p, n)
    }
}

/// The unit step of a direction.
pub open spec fn unit(dir: Dir) -> (int, int) {
    (unit_x(dir.dir9), unit_y(dir.dir9))
}

/// The negated unit step of a direction.
pub open spec fn back(dir: Dir) -> (int, int) {
    (-unit_x(dir.dir9), -unit_y(dir.dir9))
}

/// The short barrier probe count from `loc` along `d`: the free cells
/// before a barrier, or the full distance when the probe leaves the grid.
pub open spec fn short_probe(grid: &Grid, loc: Coord, d: (int, int), distance: nat) -> nat {
    let w = walk(grid, step(loc, d), d, distance, false);
    if w.2 > 0 && !grid.contains(w.1.x as int, w.1.y as int) {
        distance
    } else {
        w.0
    }
}

/// The long population probe: the empty cells ahead, or the full distance
/// when the probe meets the edge or a barrier first.
pub open spec fn long_probe_population(grid: &Grid, loc: Coord, dir: Dir, distance: nat) -> nat {
    let w = walk(grid, step(loc, unit(dir)), unit(dir), distance, true);
    if w.2 > 0 && (!grid.contains(w.1.x as int, w.1.y as int) || grid.value_at(w.1.x as int, w.1.y as int)
        == BARRIER) {
        distance
    } else {
        w.0
    }
}

/// The long barrier probe: the cells ahead before a barrier, or the full
/// distance when the probe leaves the grid first.
pub open spec fn long_probe_barrier(grid: &Grid, loc: Coord, dir: Dir, distance: nat) -> nat {
    let w = walk(grid, step(loc, unit(dir)), unit(dir), distance, false);
    if w.2 > 0 && !grid.contains(w.1.x as int, w.1.y as int) {
        distance
    } else {
        w.0
    }
}

/// The cell `k` steps of `d` away from `p` is inside the arena and lets a
/// probe pass: it holds no barrier, and is empty when `need_empty`.
pub open spec fn passes_at(grid: &Grid, p: Coord, d: (int, int), k: int, need_empty: bool) -> bool {
    let (x, y) = (p.x + k * d.0, p.y + k * d.1);
    grid.contains(x, y) && if need_empty {
        grid.value_at(x, y) == EMPTY
    } else {
        grid.value_at(x, y) != BARRIER
    }
}

/// A walk goes straight: it passes the cells `0, 1, ...` steps away from
/// its start while they let it pass, at most `n` of them, and when it
/// stops early it stands on the first cell that does not.
proof fn lemma_walk_straight(grid: &Grid, p: Coord, d: (int, int), n: nat, need_empty: bool)
    requires
        -1 <= d.0 <= 1,
        -1 <= d.1 <= 1,
        grid.width() <= 32767,
        grid.height() <= 32767,
    ensures
        walk(grid, p, d, n, need_empty).0 <= n,
        forall|k: int|
            0 <= k < walk(grid, p, d, n, need_empty).0 ==> #[trigger] passes_at(grid, p, d, k, need_empty),
        walk(grid, p, d, n, need_empty).0 < n ==> {
            let w = walk(grid, p, d, n, need_empty);
            &&& !passes_at(grid, p, d, w.0 as int, need_empty)
            &&& w.1.x == p.x + w.0 * d.0
            &&& w.1.y == p.y + w.0 * d.1
            &&& w.2 == n - w.0
        },
    decreases n,
{
    if n > 0 && passes_at(grid, p, d, 0, need_empty) {
        let q = step(p, d);
        assert(q.x == p.x + d.0 && q.y == p.y + d.1);
        lemma_walk_straight(grid, q, d, (n - 1) as nat, need_empty);
        let w = walk(grid, q, d, (n - 1) as nat, need_empty);
        assert forall|k: int| 0 <= k < w.0 + 1 implies #[trigger] passes_at(grid, p, d, k, need_empty) by {
            if k > 0 {
                assert(q.x + (k - 1) * d.0 == p.x + k * d.0) by (nonlinear_arith)
                    requires
                        q.x == p.x + d.0,
                ;
                assert(q.y + (k - 1) * d.1 == p.y + k * d.1) by (nonlinear_arith)
                    requires
                        q.y == p.y + d.1,
                ;
                assert(passes_at(grid, q, d, k - 1, need_empty));
            }
        }
        if w.0 < n - 1 {
            let m = w.0;
            assert(q.x + m * d.0 == p.x + (m + 1) * d.0) by (nonlinear_arith)
                requires
                    q.x == p.x + d.0,
            ;
            assert(q.y + m * d.1 == p.y + (m + 1) * d.1) by (nonlinear_arith)
                requires
                    q.y == p.y + d.1,
            ;
        }
    }
}

/// The long barrier probe looks straight ahead, in the direction of the
/// last move, up to `distance` cells: when it reads less than the
/// distance, the cells that many steps ahead are inside the arena and free
/// of barriers, and the next one is a barrier inside the arena; a barrier
/// inside the arena reached over free cells ends the count just before it.
pub proof fn lemma_long_probe_barrier_looks_ahead(grid: &Grid, loc: Coord, dir: Dir, n: nat)
    requires
        grid.width() <= 32767,
        grid.height() <= 32767,
        i16::MIN < loc.x < i16::MAX,
        i16::MIN < loc.y < i16::MAX,
    ensures
        long_probe_barrier(grid, loc, dir, n) <= n,
        long_probe_barrier(grid, loc, dir, n) < n ==> {
            let r = long_probe_barrier(grid, loc, dir, n) as int;
            &&& forall|k: int| 1 <= k <= r ==> #[trigger] passes_at(grid, loc, (unit_x(dir.dir9), unit_y(dir.dir9)), k, false)
            &&& grid.contains(loc.x + (r + 1) * unit_x(dir.dir9), loc.y + (r + 1) * unit_y(dir.dir9))
            &&& grid.value_at(loc.x + (r + 1) * unit_x(dir.dir9), loc.y + (r + 1) * unit_y(dir.dir9)) == BARRIER
        },
        forall|k: int|
            1 <= k <= n && (forall|j: int| 1 <= j < k ==> #[trigger] passes_at(grid, loc, (unit_x(dir.dir9), unit_y(dir.dir9)), j, false))
                && !#[trigger] passes_at(grid, loc, (unit_x(dir.dir9), unit_y(dir.dir9)), k, false) && grid.contains(
                loc.x + k * unit_x(dir.dir9),
                loc.y + k * unit_y(dir.dir9),
            ) ==> long_probe_barrier(grid, loc, dir, n) == k - 1,
{
    lemma_probe_walk(grid, loc, unit(dir), n, false);
}

/// The long population probe looks straight ahead, in the direction of
/// the last move, up to `distance` cells: when it reads less than the
/// distance, the cells that many steps ahead are inside the arena and
/// empty, and the next one inside the arena holds an individual; an
/// individual reached over empty cells ends the count just before it.
pub proof fn lemma_long_probe_population_looks_ahead(grid: &Grid, loc: Coord, dir: Dir, n: nat)
    requires
        grid.width() <= 32767,
        grid.height() <= 32767,
        i16::MIN < loc.x < i16::MAX,
        i16::MIN < loc.y < i16::MAX,
    ensures
        long_probe_population(grid, loc, dir, n) <= n,
        long_probe_population(grid, loc, dir, n) < n ==> {
            let r = long_probe_population(grid, loc, dir, n) as int;
            let (x, y) = (loc.x + (r + 1) * unit_x(dir.dir9), loc.y + (r + 1) * unit_y(dir.dir9));
            &&& forall|k: int|
                1 <= k <= r ==> #[trigger] passes_at(grid, loc, (unit_x(dir.dir9), unit_y(dir.dir9)), k, true)
            &&& grid.contains(x, y)
            &&& grid.value_at(x, y) != EMPTY
            &&& grid.value_at(x, y) != BARRIER
        },
        forall|k: int|
            1 <= k <= n && (forall|j: int|
                1 <= j < k ==> #[trigger] passes_at(grid, loc, (unit_x(dir.dir9), unit_y(dir.dir9)), j, true))
                && #[trigger] passes_at(grid, loc, (unit_x(dir.dir9), unit_y(dir.dir9)), k, false) && grid.value_at(
                loc.x + k * unit_x(dir.dir9),
                loc.y + k * unit_y(dir.dir9),
            ) != EMPTY ==> long_probe_population(grid, loc, dir, n) == k - 1,
{
    let d = unit(dir);
    lemma_probe_walk(grid, loc, d, n, true);
    let w = walk(grid, step(loc, d), d, n, true);
    assert forall|k: int|
        1 <= k <= n && (forall|j: int| 1 <= j < k ==> #[trigger] passes_at(grid, loc, d, j, true))
            && #[trigger] passes_at(grid, loc, d, k, false) && grid.value_at(loc.x + k * d.0, loc.y + k * d.1)
            != EMPTY implies long_probe_population(grid, loc, dir, n) == k - 1 by {
        if w.0 < k - 1 {
            assert(passes_at(grid, loc, d, w.0 + 1int, true));
        }
        if w.0 >= k {
            assert(passes_at(grid, loc, d, k, true));
        }
        assert(w.0 == k - 1);
    }
}

/// A short barrier probe from `loc` along a unit step `d` counts the cells
/// before the first barrier, up to `distance`: when it reads less than the
/// distance, the cells that many steps along are inside the arena and free
/// of barriers, and the next one is a barrier inside the arena; a barrier
/// inside the arena reached over free cells ends the count just before it.
pub proof fn lemma_short_probe_looks_along(grid: &Grid, loc: Coord, d: (int, int), n: nat)
    requires
        -1 <= d.0 <= 1,
        -1 <= d.1 <= 1,
        grid.width() <= 32767,
        grid.height() <= 32767,
        i16::MIN < loc.x < i16::MAX,
        i16::MIN < loc.y < i16::MAX,
    ensures
        short_probe(grid, loc, d, n) <= n,
        short_probe(grid, loc, d, n) < n ==> {
            let r = short_probe(grid, loc, d, n) as int;
            &&& forall|k: int| 1 <= k <= r ==> #[trigger] passes_at(grid, loc, d, k, false)
            &&& grid.contains(loc.x + (r + 1) * d.0, loc.y + (r + 1) * d.1)
            &&& grid.value_at(loc.x + (r + 1) * d.0, loc.y + (r + 1) * d.1) == BARRIER
        },
        forall|k: int|
            1 <= k <= n && (forall|j: int| 1 <= j < k ==> #[trigger] passes_at(grid, loc, d, j, false))
                && !#[trigger] passes_at(grid, loc, d, k, false) && grid.contains(loc.x + k * d.0, loc.y + k * d.1)
                ==> short_probe(grid, loc, d, n) == k - 1,
{
    lemma_probe_walk(grid, loc, d, n, false);
}

/// The short barrier probes look forward and backward along the last
/// move (and along its left-right axis): forward is one unit step of the
/// direction, backward its negation.
pub proof fn lemma_probe_axes(dir: Dir)
    ensures
        unit(dir) == (unit_x(dir.dir9), unit_y(dir.dir9)),
        back(dir) == (-unit_x(dir.dir9), -unit_y(dir.dir9)),
        -1 <= unit_x(dir.dir9) <= 1 && -1 <= unit_y(dir.dir9) <= 1,
{
}

/// A probe from `loc` along `d` seen through its walk from the next cell:
/// the cells it passes are `1, 2, ...` steps from `loc`.
proof fn lemma_probe_walk(grid: &Grid, loc: Coord, d: (int, int), n: nat, need_empty: bool)
    requires
        -1 <= d.0 <= 1,
        -1 <= d.1 <= 1,
        grid.width() <= 32767,
        grid.height() <= 32767,
        i16::MIN < loc.x < i16::MAX,
        i16::MIN < loc.y < i16::MAX,
    ensures
        ({
            let w = walk(grid, step(loc, d), d, n, need_empty);
            &&& w.0 <= n
            &&& forall|k: int| 1 <= k <= w.0 ==> #[trigger] passes_at(grid, loc, d, k, need_empty)
            &&& w.0 < n ==> {
                &&& !passes_at(grid, loc, d, w.0 + 1int, need_empty)
                &&& w.1.x == loc.x + (w.0 + 1) * d.0
                &&& w.1.y == loc.y + (w.0 + 1) * d.1
                &&& w.2 == n - w.0
            }
            &&& w.0 == n ==> forall|k: int| 1 <= k <= n ==> #[trigger] passes_at(grid, loc, d, k, need_empty)
        }),
{
    let q = step(loc, d);
    assert(q.x == loc.x + d.0 && q.y == loc.y + d.1);
    lemma_walk_straight(grid, q, d, n, need_empty);
    let w = walk(grid, q, d, n, need_empty);
    assert forall|k: int| 1 <= k <= w.0 implies #[trigger] passes_at(grid, loc, d, k, need_empty) by {
        assert(q.x + (k - 1) * d.0 == loc.x + k * d.0) by (nonlinear_arith)
            requires
                q.x == loc.x + d.0,
        ;
        assert(q.y + (k - 1) * d.1 == loc.y + k * d.1) by (nonlinear_arith)
            requires
                q.y == loc.y + d.1,
        ;
        assert(passes_at(grid, q, d, k - 1, need_empty));
    }
    if w.0 < n {
        let m = w.0 as int;
        assert(q.x + m * d.0 == loc.x + (m + 1) * d.0) by (nonlinear_arith)
            requires
                q.x == loc.x + d.0,
        ;
        assert(q.y + m * d.1 == loc.y + (m + 1) * d.1) by (nonlinear_arith)
            requires
                q.y == loc.y + d.1,
        ;
    }
}

/// An individual stands at `c`.
pub open spec fn occupied(grid: &Grid, c: Coord) -> bool {
    grid.value_at(c.x as int, c.y as int) != EMPTY && grid.value_at(c.x as int, c.y as int) != BARRIER
}

/// `c - loc`, each component wrapping like `i16`.
pub open spec fn offset(c: Coord, loc: Coord) -> Coord {
    Coord { x: wrap_i16(c.x - loc.x) as i16, y: wrap_i16(c.y - loc.y) as i16 }
}

/// How many cells of `nb` hold an individual.
pub open spec fn occupied_count(nb: Seq<Coord>, grid: &Grid) -> nat
    decreases nb.len(),
{
    if nb.len() == 0 {
        0
    } else {
        occupied_count(nb.drop_last(), grid) + if occupied(grid, nb.last()) {
            1nat
        } else {
            0nat
        }
    }
}

/// The population count of a neighborhood is the number of its cells
/// that hold an individual (neither empty nor a barrier): at most its
/// size, all of it when every cell does, none when no cell does.
pub proof fn lemma_occupied_count_counts(nb: Seq<Coord>, grid: &Grid)
    ensures
        occupied_count(nb, grid) <= nb.len(),
        (forall|i: int|
            0 <= i < nb.len() ==> grid.value_at((#[trigger] nb[i]).x as int, nb[i].y as int) != EMPTY
                && grid.value_at(nb[i].x as int, nb[i].y as int) != BARRIER) ==> occupied_count(nb, grid) == nb.len(),
        (forall|i: int|
            0 <= i < nb.len() ==> grid.value_at((#[trigger] nb[i]).x as int, nb[i].y as int) == EMPTY
                || grid.value_at(nb[i].x as int, nb[i].y as int) == BARRIER) ==> occupied_count(nb, grid) == 0,
    decreases nb.len(),
{
    if nb.len() > 0 {
        let rest = nb.drop_last();
        lemma_occupied_count_counts(rest, grid);
        assert forall|i: int| 0 <= i < rest.len() implies rest[i] == nb[i] by {}
        assert(nb.last() == nb[nb.len() - 1]);
    }
}

/// The offsets from `loc` of the cells of `nb` other than `loc` that hold
/// an individual, in order.
pub open spec fn occupied_offsets(nb: Seq<Coord>, grid: &Grid, loc: Coord) -> Seq<Coord>
    decreases nb.len(),
{
    if nb.len() == 0 {
        Seq::empty()
    } else {
        let rest = occupied_offsets(nb.drop_last(), grid, loc);
        let c = nb.last();
        if c != loc && occupied(grid, c) {
            rest.push(offset(c, loc))
        } else {
            rest
        }
    }
}

/// The summed signal levels of layer `layer` over the cells of `nb`.
pub open spec fn signal_sum(nb: Seq<Coord>, signals: &Signals, layer: int) -> int
    decreases nb.len(),
{
    if nb.len() == 0 {
        0
    } else {
        signal_sum(nb.drop_last(), signals, layer) + signals.magnitude_at(
            layer,
            nb.last().x as int,
            nb.last().y as int,
        )
    }
}

/// The offsets from `loc` and signal levels of the cells of `nb` other
/// than `loc`, in order.
pub open spec fn signal_samples(nb: Seq<Coord>, signals: &Signals, layer: int, loc: Coord) -> Seq<(Coord, u8)>
    decreases nb.len(),
{
    if nb.len() == 0 {
        Seq::empty()
    } else {
        let rest = signal_samples(nb.drop_last(), signals, layer, loc);
        let c = nb.last();
        if c != loc {
            rest.push((offset(c, loc), signals.magnitude_at(layer, c.x as int, c.y as int)))
        } else {
            rest
        }
    }
}


/// The probe test of a cell: empty, or (when `need_empty` is unset) not
/// a barrier.
fn cell_passes(grid: &Grid, p: Coord, need_empty: bool) -> (b: bool)
    requires
        grid.wf(),
    ensures
        b == (if need_empty {
            grid.value_at(p.x as int, p.y as int) == EMPTY
        } else {
            grid.value_at(p.x as int, p.y as int) != BARRIER
        }),
{
    if need_empty {
        grid.is_empty_at(p)
    } else {
        !grid.is_barrier_at(p)
    }
}

/// Walks from `start` by `d` (see `walk`).
fn probe_walk(grid: &Grid, start: Coord, d: Coord, n: u32, need_empty: bool) -> (r: (u32, Coord, u32))
    requires
        grid.wf(),
    ensures
        (r.0 as nat, r.1, r.2 as nat) == walk(grid, start, (d.x as int, d.y as int), n as nat, need_empty),
        r.0 <= n,
{
    let ghost dd = (d.x as int, d.y as int);
    let mut count: u32 = 0;
    let mut p = start;
    let mut rem = n;
    while rem > 0 && grid.is_in_bounds(p) && cell_passes(grid, p, need_empty)
        invariant
            grid.wf(),
            dd == (d.x as int, d.y as int),
            count + rem == n,
            walk(grid, start, dd, n as nat, need_empty) == (
                (count + walk(grid, p, dd, rem as nat, need_empty).0) as nat,
                walk(grid, p, dd, rem as nat, need_empty).1,
                walk(grid, p, dd, rem as nat, need_empty).2,
            ),
        decreases rem,
    {
        let next = p.add(d);
        assert(next == step(p, dd));
        count = count + 1;
        p = next;
        rem = rem - 1;
    }
    (count, p, rem)
}

/// The short barrier probe along `d` (see `short_probe`).
fn short_probe_count(grid: &Grid, loc: Coord, d: Coord, distance: u32) -> (c: u32)
    requires
        grid.wf(),
    ensures
        c == short_probe(grid, loc, (d.x as int, d.y as int), distance as nat),
{
    let start = loc.add(d);
    let w = probe_walk(grid, start, d, distance, false);
    assert(start == step(loc, (d.x as int, d.y as int)));
    if w.2 > 0 && !grid.is_in_bounds(w.1) {
        distance
    } else {
        w.0
    }
}

/// The short barrier probe readings along the axis of `dir`.
fn short_probe_barrier_distance(grid: &Grid, loc: Coord, dir: Dir, distance: u32) -> (r: SensorReading)
    requires
        grid.wf(),
    ensures
        r == (SensorReading::ShortProbe {
            fwd: short_probe(grid, loc, unit(dir), distance as nat) as u32,
            rev: short_probe(grid, loc, back(dir), distance as nat) as u32,
            distance,
        }),
{
    let d = dir.as_normalized_coord();
    let neg = Coord { x: -d.x, y: -d.y };
    let fwd = short_probe_count(grid, loc, d, distance);
    let rev = short_probe_count(grid, loc, neg, distance);
    SensorReading::ShortProbe { fwd, rev, distance }
}

/// The long population probe (see `long_probe_population`).
fn long_probe_population_fwd(loc: Coord, dir: Dir, long_probe_dist: u32, grid: &Grid) -> (c: u32)
    requires
        grid.wf(),
        long_probe_dist > 0,
    ensures
        c == long_probe_population(grid, loc, dir, long_probe_dist as nat),
{
    let d = dir.as_normalized_coord();
    let start = loc.add(d);
    let w = probe_walk(grid, start, d, long_probe_dist, true);
    assert(start == step(loc, unit(dir)));
    if w.2 > 0 && (!grid.is_in_bounds(w.1) || grid.is_barrier_at(w.1)) {
        long_probe_dist
    } else {
        w.0
    }
}

/// The long barrier probe (see `long_probe_barrier`).
fn long_probe_barrier_fwd(loc: Coord, dir: Dir, long_probe_dist: u32, grid: &Grid) -> (c: u32)
    requires
        grid.wf(),
        long_probe_dist > 0,
    ensures
        c == long_probe_barrier(grid, loc, dir, long_probe_dist as nat),
{
    let d = dir.as_normalized_coord();
    let start = loc.add(d);
    let w = probe_walk(grid, start, d, long_probe_dist, false);
    assert(start == step(loc, unit(dir)));
    if w.2 > 0 && !grid.is_in_bounds(w.1) {
        long_probe_dist
    } else {
        w.0
    }
}

/// How many cells of `nb` hold an individual.
fn count_occupied(nb: &Vec<Coord>, grid: &Grid) -> (c: u64)
    requires
        grid.wf(),
    ensures
        c == occupied_count(nb@, grid),
{
    let mut c: u64 = 0;
    let mut i: usize = 0;
    while i < nb.len()
        invariant
            i <= nb.len(),
            grid.wf(),
            c == occupied_count(nb@.take(i as int), grid),
            c <= i,
        decreases nb.len() - i,
    {
        assert(nb@.take(i + 1).drop_last() == nb@.take(i as int));
        if grid.is_occupied_at(nb[i]) {
            c = c + 1;
        }
        i = i + 1;
    }
    assert(nb@.take(nb.len() as int) == nb@);
    c
}

/// The offsets of the other individuals of `nb` from `loc`.
fn collect_occupied_offsets(nb: &Vec<Coord>, grid: &Grid, loc: Coord) -> (r: Vec<Coord>)
    requires
        grid.wf(),
    ensures
        r@ == occupied_offsets(nb@, grid, loc),
{
    let mut r: Vec<Coord> = Vec::new();
    let mut i: usize = 0;
    while i < nb.len()
        invariant
            i <= nb.len(),
            grid.wf(),
            r@ == occupied_offsets(nb@.take(i as int), grid, loc),
        decreases nb.len() - i,
    {
        assert(nb@.take(i + 1).drop_last() == nb@.take(i as int));
        let c = nb[i];
        if !(c.x == loc.x && c.y == loc.y) && grid.is_occupied_at(c) {
            r.push(c.sub(loc));
        }
        i = i + 1;
    }
    assert(nb@.take(nb.len() as int) == nb@);
    r
}

/// The summed signal levels of `nb`.
fn sum_signals(nb: &Vec<Coord>, signals: &Signals, layer: u16) -> (s: u128)
    requires
        signals.wf(),
    ensures
        s == signal_sum(nb@, signals, layer as int),
{
    let mut s: u128 = 0;
    let mut i: usize = 0;
    while i < nb.len()
        invariant
            i <= nb.len(),
            signals.wf(),
            i <= usize::MAX,
            s == signal_sum(nb@.take(i as int), signals, layer as int),
            s <= 255 * i,
        decreases nb.len() - i,
    {
        assert(nb@.take(i + 1).drop_last() == nb@.take(i as int));
        let m = signals.get_magnitude(layer, nb[i]);
        s = s + m as u128;
        i = i + 1;
    }
    assert(nb@.take(nb.len() as int) == nb@);
    s
}

/// The offsets and signal levels of the other cells of `nb`.
fn collect_signal_samples(nb: &Vec<Coord>, signals: &Signals, layer: u16, loc: Coord) -> (r: Vec<(Coord, u8)>)
    requires
        signals.wf(),
    ensures
        r@ == signal_samples(nb@, signals, layer as int, loc),
{
    let mut r: Vec<(Coord, u8)> = Vec::new();
    let mut i: usize = 0;
    while i < nb.len()
        invariant
            i <= nb.len(),
            signals.wf(),
            r@ == signal_samples(nb@.take(i as int), signals, layer as int, loc),
        decreases nb.len() - i,
    {
        assert(nb@.take(i + 1).drop_last() == nb@.take(i as int));
        let c = nb[i];
        if !(c.x == loc.x && c.y == loc.y) {
            let m = signals.get_magnitude(layer, c);
            r.push((c.sub(loc), m));
        }
        i = i + 1;
    }
    assert(nb@.take(nb.len() as int) == nb@);
    r
}


/// `nb` lists the population sensor's neighborhood of `loc`.
pub open spec fn population_neighborhood(nb: Seq<Coord>, loc: Coord, params: &Params) -> bool {
    neighborhood_list(
        nb,
        loc,
        params.population_sensor_radius_num as int,
        params.population_sensor_radius_den as int,
        params.size_x as int,
        params.size_y as int,
    )
}

/// `nb` lists the signal sensor's neighborhood of `loc`.
pub open spec fn signal_neighborhood(nb: Seq<Coord>, loc: Coord, params: &Params) -> bool {
    neighborhood_list(
        nb,
        loc,
        params.signal_sensor_radius_num as int,
        params.signal_sensor_radius_den as int,
        params.size_x as int,
        params.size_y as int,
    )
}

/// The reading along the axis of `dir` from the population neighborhood.
pub open spec fn population_axis_reading(r: SensorReading, loc: Coord, dir: Dir, grid: &Grid, params: &Params) -> bool {
    if dir.dir9 == Compass::Center {
        r is Half
    } else {
        match r {
            SensorReading::PopulationAlongAxis { dir: d, offsets } => d == dir && exists|nb: Seq<Coord>|
                population_neighborhood(nb, loc, params) && offsets@ == #[trigger] occupied_offsets(
                    nb,
                    grid,
                    loc,
                ),
            _ => false,
        }
    }
}

/// The reading along the axis of `dir` from the signal neighborhood.
pub open spec fn signal_axis_reading(r: SensorReading, loc: Coord, dir: Dir, signals: &Signals, params: &Params) -> bool {
    if dir.dir9 == Compass::Center {
        r is Half
    } else {
        match r {
            SensorReading::SignalAlongAxis { dir: d, samples } => d == dir && exists|nb: Seq<Coord>|
                signal_neighborhood(nb, loc, params) && samples@ == #[trigger] signal_samples(
                    nb,
                    signals,
                    0,
                    loc,
                ),
            _ => false,
        }
    }
}

/// The distance from `v` to the nearer end of `0..size`.
pub open spec fn edge_distance(v: int, size: int) -> int {
    if v <= size - v - 1 {
        v
    } else {
        size - v - 1
    }
}

/// The distance to the nearer end of `0..size` is the smaller of `v` and
/// `size - v - 1`; inside the range it lies in `0..=(size - 1) / 2`, at
/// most half the size.
pub proof fn lemma_edge_distance_is_nearer(v: int, size: int)
    ensures
        edge_distance(v, size) <= v,
        edge_distance(v, size) <= size - v - 1,
        edge_distance(v, size) == v || edge_distance(v, size) == size - v - 1,
        0 <= v < size ==> 0 <= edge_distance(v, size) && 2 * edge_distance(v, size) <= size - 1,
{
}

/// The reading of the genetic similarity sensor: the individual ahead,
/// when one stands there and is alive.
pub open spec fn similarity_reading(r: SensorReading, indiv: &Indiv, grid: &Grid, peeps: &Peeps) -> bool {
    let ahead = step(indiv.loc, unit(indiv.last_move_dir));
    let index = grid.value_at(ahead.x as int, ahead.y as int);
    if grid.contains(ahead.x as int, ahead.y as int) && occupied(grid, ahead) && index != 0 && index
        < peeps.individuals.len() && peeps.individuals@[index as int].alive {
        r == (SensorReading::Similarity { other: index })
    } else {
        r is Zero
    }
}

/// The genetic similarity sensor reads the individual on the cell one
/// step ahead of the sensing individual, in the direction of its last
/// move: it names the index stored in that cell, inside the arena, of a
/// living individual (neither empty nor a barrier); when that cell holds
/// no such index, the reading is zero.
pub proof fn lemma_similarity_reads_the_cell_ahead(r: SensorReading, indiv: &Indiv, grid: &Grid, peeps: &Peeps)
    requires
        i16::MIN < indiv.loc.x < i16::MAX,
        i16::MIN < indiv.loc.y < i16::MAX,
        similarity_reading(r, indiv, grid, peeps),
    ensures
        ({
            let ax = indiv.loc.x + unit_x(indiv.last_move_dir.dir9);
            let ay = indiv.loc.y + unit_y(indiv.last_move_dir.dir9);
            let v = grid.value_at(ax, ay);
            if grid.contains(ax, ay) && v != EMPTY && v != BARRIER && v < peeps.individuals.len()
                && peeps.individuals@[v as int].alive {
                r == SensorReading::Similarity { other: v }
            } else {
                r is Zero
            }
        }),
{
    let ax = indiv.loc.x + unit_x(indiv.last_move_dir.dir9);
    let ay = indiv.loc.y + unit_y(indiv.last_move_dir.dir9);
    assert(wrap_i16(ax) == ax);
    assert(wrap_i16(ay) == ay);
}

/// The population sensor's neighborhood of `loc`.
fn population_nb(loc: Coord, params: &Params) -> (nb: Vec<Coord>)
    requires
        0 < params.population_sensor_radius_den <= 0x8000_0000,
        params.population_sensor_radius_num <= 0x8000_0000,
    ensures
        population_neighborhood(nb@, loc, params),
{
    visit_neighborhood(
        loc,
        params.population_sensor_radius_num,
        params.population_sensor_radius_den,
        params.size_x,
        params.size_y,
    )
}

/// The signal sensor's neighborhood of `loc`.
fn signal_nb(loc: Coord, params: &Params) -> (nb: Vec<Coord>)
    requires
        0 < params.signal_sensor_radius_den <= 0x8000_0000,
        params.signal_sensor_radius_num <= 0x8000_0000,
    ensures
        signal_neighborhood(nb@, loc, params),
{
    visit_neighborhood(
        loc,
        params.signal_sensor_radius_num,
        params.signal_sensor_radius_den,
        params.size_x,
        params.size_y,
    )
}

/// The population density reading along the axis of `dir`.
fn population_density_along_axis(loc: Coord, dir: Dir, grid: &Grid, params: &Params) -> (r: SensorReading)
    requires
        grid.wf(),
        0 < params.population_sensor_radius_den <= 0x8000_0000,
        params.population_sensor_radius_num <= 0x8000_0000,
    ensures
        population_axis_reading(r, loc, dir, grid, params),
{
    if dir.as_int() == 4 {
        assert(dir.dir9 == Compass::Center);
        return SensorReading::Half;
    }
    let nb = population_nb(loc, params);
    let offsets = collect_occupied_offsets(&nb, grid, loc);
    assert(occupied_offsets(nb@, grid, loc) == offsets@);
    SensorReading::PopulationAlongAxis { dir, offsets }
}

/// The signal density reading along the axis of `dir`.
fn signal_density_along_axis(loc: Coord, dir: Dir, signals: &Signals, params: &Params) -> (r: SensorReading)
    requires
        signals.wf(),
        0 < params.signal_sensor_radius_den <= 0x8000_0000,
        params.signal_sensor_radius_num <= 0x8000_0000,
    ensures
        signal_axis_reading(r, loc, dir, signals, params),
{
    if dir.as_int() == 4 {
        assert(dir.dir9 == Compass::Center);
        return SensorReading::Half;
    }
    let nb = signal_nb(loc, params);
    let samples = collect_signal_samples(&nb, signals, 0, loc);
    assert(signal_samples(nb@, signals, 0, loc) == samples@);
    SensorReading::SignalAlongAxis { dir, samples }
}

/// What `sensor` of `indiv` reads at simulation step `sim_step`; the
/// random sensor draws from `rng`, the others leave it alone.
pub fn get_sensor(
    indiv: &Indiv,
    sensor: Sensor,
    sim_step: u32,
    grid: &Grid,
    signals: &Signals,
    params: &Params,
    peeps: &Peeps,
    rng: &mut RandomUintGenerator,
) -> (r: SensorReading)
    requires
        grid.wf(),
        signals.wf(),
        0 < params.population_sensor_radius_den <= 0x8000_0000,
        params.population_sensor_radius_num <= 0x8000_0000,
        0 < params.signal_sensor_radius_den <= 0x8000_0000,
        params.signal_sensor_radius_num <= 0x8000_0000,
        sensor == Sensor::Osc1 ==> indiv.osc_period > 0,
        (sensor == Sensor::LongprobePopFwd || sensor == Sensor::LongprobeBarFwd)
            ==> indiv.long_probe_dist > 0,
    ensures
        sensor != Sensor::Random ==> final(rng)@ == old(rng)@,
        ({
            let loc = indiv.loc;
            let dir = indiv.last_move_dir;
            let lr = Dir { dir9: rotated(dir.dir9, 2) };
            let sx = params.size_x as int;
            let sy = params.size_y as int;
            match sensor {
                Sensor::Age => r == (SensorReading::Quotient {
                    num: indiv.age as u64,
                    den: params.steps_per_generation as u64,
                }),
                Sensor::BoundaryDist => {
                    let closest_x = edge_distance(loc.x as int, sx);
                    let closest_y = edge_distance(loc.y as int, sy);
                    let closest = if closest_x <= closest_y { closest_x } else { closest_y };
                    let mx = if sx / 2 - 1 >= sy / 2 - 1 { sx / 2 - 1 } else { sy / 2 - 1 };
                    r == (SensorReading::SignedQuotient { num: closest as i32, den: mx as i32 })
                },
                Sensor::BoundaryDistX => r == (SensorReading::HalfSizeFraction {
                    num: edge_distance(loc.x as int, sx) as i32,
                    size: params.size_x,
                }),
                Sensor::BoundaryDistY => r == (SensorReading::HalfSizeFraction {
                    num: edge_distance(loc.y as int, sy) as i32,
                    size: params.size_y,
                }),
                Sensor::LastMoveDirX => r == SensorReading::Component(unit_x(dir.dir9) as i16),
                Sensor::LastMoveDirY => r == SensorReading::Component(unit_y(dir.dir9) as i16),
                Sensor::LocX => r == (SensorReading::LocFraction { coord: loc.x, size: params.size_x }),
                Sensor::LocY => r == (SensorReading::LocFraction { coord: loc.y, size: params.size_y }),
                Sensor::Osc1 => r == (SensorReading::Oscillator {
                    step_mod: sim_step % indiv.osc_period,
                    period: indiv.osc_period,
                }),
                Sensor::LongprobePopFwd => r == (SensorReading::Quotient {
                    num: long_probe_population(grid, loc, dir, indiv.long_probe_dist as nat) as u64,
                    den: indiv.long_probe_dist as u64,
                }),
                Sensor::LongprobeBarFwd => r == (SensorReading::Quotient {
                    num: long_probe_barrier(grid, loc, dir, indiv.long_probe_dist as nat) as u64,
                    den: indiv.long_probe_dist as u64,
                }),
                Sensor::Population => exists|nb: Seq<Coord>|
                    population_neighborhood(nb, loc, params) && r == if nb.len() > 0 {
                        SensorReading::Quotient {
                            num: occupied_count(nb, grid) as u64,
                            den: nb.len() as u64,
                        }
                    } else {
                        SensorReading::Zero
                    },
                Sensor::PopulationFwd => population_axis_reading(r, loc, dir, grid, params),
                Sensor::PopulationLr => population_axis_reading(r, loc, lr, grid, params),
                Sensor::BarrierFwd => r == (SensorReading::ShortProbe {
                    fwd: short_probe(grid, loc, unit(dir), params.short_probe_barrier_distance as nat) as u32,
                    rev: short_probe(grid, loc, back(dir), params.short_probe_barrier_distance as nat) as u32,
                    distance: params.short_probe_barrier_distance,
                }),
                Sensor::BarrierLr => r == (SensorReading::ShortProbe {
                    fwd: short_probe(grid, loc, unit(lr), params.short_probe_barrier_distance as nat) as u32,
                    rev: short_probe(grid, loc, back(lr), params.short_probe_barrier_distance as nat) as u32,
                    distance: params.short_probe_barrier_distance,
                }),
                Sensor::Random => {
                    &&& r == SensorReading::Draw(old(rng)@.next_output())
                    &&& final(rng)@ == old(rng)@.next_state()
                },
                Sensor::Signal0 => exists|nb: Seq<Coord>|
                    signal_neighborhood(nb, loc, params) && r == (SensorReading::SignalDensity {
                        sum: signal_sum(nb, signals, 0) as u128,
                        count: nb.len() as u64,
                    }),
                Sensor::Signal0Fwd => signal_axis_reading(r, loc, dir, signals, params),
                Sensor::Signal0Lr => signal_axis_reading(r, loc, lr, signals, params),
                Sensor::GeneticSimFwd => similarity_reading(r, indiv, grid, peeps),
                Sensor::NumSenses => r is Zero,
            }
        }),
        sensor == Sensor::BoundaryDistX ==> (r matches SensorReading::HalfSizeFraction { num, size } && size
            == params.size_x && num <= indiv.loc.x && num <= params.size_x - indiv.loc.x - 1 && (num
            == indiv.loc.x || num == params.size_x - indiv.loc.x - 1)),
        sensor == Sensor::BoundaryDistY ==> (r matches SensorReading::HalfSizeFraction { num, size } && size
            == params.size_y && num <= indiv.loc.y && num <= params.size_y - indiv.loc.y - 1 && (num
            == indiv.loc.y || num == params.size_y - indiv.loc.y - 1)),
        sensor == Sensor::BoundaryDist ==> (r matches SensorReading::SignedQuotient { num, den } && num
            <= indiv.loc.x && num <= params.size_x - indiv.loc.x - 1 && num <= indiv.loc.y && num
            <= params.size_y - indiv.loc.y - 1 && (num == indiv.loc.x || num == params.size_x
            - indiv.loc.x - 1 || num == indiv.loc.y || num == params.size_y - indiv.loc.y - 1)),
{
    let loc = indiv.loc;
    let dir = indiv.last_move_dir;
    let sx = params.size_x as i32;
    let sy = params.size_y as i32;
    match sensor {
        Sensor::Age => SensorReading::Quotient {
            num: indiv.age as u64,
            den: params.steps_per_generation as u64,
        },
        Sensor::BoundaryDist => {
            let x = loc.x as i32;
            let y = loc.y as i32;
            let dist_x = if x <= sx - x - 1 { x } else { sx - x - 1 };
            let dist_y = if y <= sy - y - 1 { y } else { sy - y - 1 };
            let closest = if dist_x <= dist_y { dist_x } else { dist_y };
            let max_possible = if sx / 2 - 1 >= sy / 2 - 1 { sx / 2 - 1 } else { sy / 2 - 1 };
            SensorReading::SignedQuotient { num: closest, den: max_possible }
        },
        Sensor::BoundaryDistX => {
            let x = loc.x as i32;
            let d = if x <= sx - x - 1 { x } else { sx - x - 1 };
            SensorReading::HalfSizeFraction { num: d, size: params.size_x }
        },
        Sensor::BoundaryDistY => {
            let y = loc.y as i32;
            let d = if y <= sy - y - 1 { y } else { sy - y - 1 };
            SensorReading::HalfSizeFraction { num: d, size: params.size_y }
        },
        Sensor::LastMoveDirX => SensorReading::Component(dir.as_normalized_coord().x),
        Sensor::LastMoveDirY => SensorReading::Component(dir.as_normalized_coord().y),
        Sensor::LocX => SensorReading::LocFraction { coord: loc.x, size: params.size_x },
        Sensor::LocY => SensorReading::LocFraction { coord: loc.y, size: params.size_y },
        Sensor::Osc1 => SensorReading::Oscillator {
            step_mod: sim_step % indiv.osc_period,
            period: indiv.osc_period,
        },
        Sensor::LongprobePopFwd => {
            let count = long_probe_population_fwd(loc, dir, indiv.long_probe_dist, grid);
            SensorReading::Quotient { num: count as u64, den: indiv.long_probe_dist as u64 }
        },
        Sensor::LongprobeBarFwd => {
            let count = long_probe_barrier_fwd(loc, dir, indiv.long_probe_dist, grid);
            SensorReading::Quotient { num: count as u64, den: indiv.long_probe_dist as u64 }
        },
        Sensor::Population => {
            let nb = population_nb(loc, params);
            let count_occupied = count_occupied(&nb, grid);
            if nb.len() > 0 {
                SensorReading::Quotient { num: count_occupied, den: nb.len() as u64 }
            } else {
                SensorReading::Zero
            }
        },
        Sensor::PopulationFwd => population_density_along_axis(loc, dir, grid, params),
        Sensor::PopulationLr => population_density_along_axis(
            loc,
            dir.rotate90_deg_cw(),
            grid,
            params,
        ),
        Sensor::BarrierFwd => short_probe_barrier_distance(
            grid,
            loc,
            dir,
            params.short_probe_barrier_distance,
        ),
        Sensor::BarrierLr => short_probe_barrier_distance(
            grid,
            loc,
            dir.rotate90_deg_cw(),
            params.short_probe_barrier_distance,
        ),
        Sensor::Random => SensorReading::Draw(random_uint(rng)),
        Sensor::Signal0 => {
            let nb = signal_nb(loc, params);
            let sum = sum_signals(&nb, signals, 0);
            SensorReading::SignalDensity { sum, count: nb.len() as u64 }
        },
        Sensor::Signal0Fwd => signal_density_along_axis(loc, dir, signals, params),
        Sensor::Signal0Lr => signal_density_along_axis(
            loc,
            dir.rotate90_deg_cw(),
            signals,
            params,
        ),
        Sensor::GeneticSimFwd => {
            let loc2 = loc.add(dir.as_normalized_coord());
            assert(loc2 == step(loc, unit(dir)));
            if grid.is_in_bounds(loc2) && grid.is_occupied_at(loc2) {
                let index = grid.at(loc2);
                match peeps.get(index) {
                    Some(indiv2) => {
                        if indiv2.alive {
                            return SensorReading::Similarity { other: index };
                        }
                    },
                    None => {},
                }
            }
            SensorReading::Zero
        },
        Sensor::NumSenses => SensorReading::Zero,
    }
}

} // verus!
