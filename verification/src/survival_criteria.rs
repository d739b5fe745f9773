//! Whether an individual passed the generation's challenge, and its score.
use vstd::prelude::*;

use crate::basic_types::{distance, distance_between, wrap_i16, Coord};
use crate::grid::{Grid, BARRIER, EMPTY};
use crate::indiv::Indiv;
use crate::params::Params;
use crate::simulator::{
    known_challenge, CHALLENGE_AGAINST_ANY_WALL, CHALLENGE_ALTRUISM, CHALLENGE_ALTRUISM_SACRIFICE,
    CHALLENGE_CENTER_SPARSE, CHALLENGE_CENTER_UNWEIGHTED, CHALLENGE_CENTER_WEIGHTED,
    CHALLENGE_CIRCLE, CHALLENGE_CORNER, CHALLENGE_CORNER_WEIGHTED, CHALLENGE_EAST_WEST_EIGHTHS,
    CHALLENGE_LEFT_EIGHTH, CHALLENGE_LOCATION_SEQUENCE, CHALLENGE_MIGRATE_DISTANCE,
    CHALLENGE_NEAR_BARRIER, CHALLENGE_PAIRS, CHALLENGE_RADIOACTIVE_WALLS, CHALLENGE_RIGHT_HALF,
    CHALLENGE_RIGHT_QUARTER, CHALLENGE_STRING, CHALLENGE_TOUCH_ANY_WALL,
};

verus! {

/// A survival score in 0..=1, as the quantities it is computed from.
#[derive(Debug, Clone, Copy, PartialEq, Eq, Structural)]
pub enum SurvivalScore {
    Zero,
    One,
    /// How far inside a circle of radius `size / divisor` a point at
    /// `distance` from its center lies: `(r - distance) / r`.
    Inside { size: u16, divisor: u32, distance: u32 },
    /// `num / den`.
    Fraction { num: u32, den: u32 },
    /// `1 - distance / (size / 2)`.
    Closeness { size: u16, distance: u32 },
}

/// The score lies in 0..=1: a distance within its radius, a fraction of
/// at most one whole, a closeness within half the arena.
pub open spec fn score_in_unit_range(s: SurvivalScore) -> bool {
    match s {
        SurvivalScore::Zero | SurvivalScore::One => true,
        SurvivalScore::Inside { size, divisor, distance } => divisor > 0 && divisor * distance <= size,
        SurvivalScore::Fraction { num, den } => den > 0 && num <= den,
        SurvivalScore::Closeness { size, distance } => 2 * distance <= size,
    }
}

/// An individual stands at (x, y) inside the grid.
pub open spec fn occupied_cell(grid: &Grid, x: int, y: int) -> bool {
    &&& grid.contains(x, y)
    &&& grid.value_at(x, y) != EMPTY
    &&& grid.value_at(x, y) != BARRIER
}

/// The `k`-th cell of the 3x3 block around (cx, cy), column by column.
pub open spec fn block_x(cx: int, k: int) -> int {
    cx + k / 3 - 1
}

pub open spec fn block_y(cy: int, k: int) -> int {
    cy + k % 3 - 1
}

/// How many of the first `k` cells of the 3x3 block around (cx, cy) hold
/// an individual, the center left out when `skip_center`.
pub open spec fn block_count(grid: &Grid, cx: int, cy: int, skip_center: bool, k: int) -> nat
    decreases k,
{
    if k <= 0 {
        0
    } else {
        block_count(grid, cx, cy, skip_center, k - 1) + if (!skip_center || k - 1 != 4)
            && occupied_cell(grid, block_x(cx, k - 1), block_y(cy, k - 1)) {
            1nat
        } else {
            0nat
        }
    }
}

/// The individual at (nx, ny) has no neighbor but the one at (lx, ly).
pub open spec fn lonely_partner(grid: &Grid, nx: int, ny: int, lx: int, ly: int) -> bool {
    forall|k: int|
        0 <= k < 9 && k != 4 && !(block_x(nx, k) == lx && block_y(ny, k) == ly) ==> !occupied_cell(
            grid,
            #[trigger] block_x(nx, k),
            block_y(ny, k),
        )
}

/// Exactly one neighbor, which has no other neighbor.
pub open spec fn paired(grid: &Grid, lx: int, ly: int) -> bool {
    &&& block_count(grid, lx, ly, true, 9) == 1
    &&& forall|k: int|
        0 <= k < 9 && k != 4 && occupied_cell(grid, #[trigger] block_x(lx, k), block_y(ly, k))
            ==> lonely_partner(grid, block_x(lx, k), block_y(ly, k), lx, ly)
}

/// The location (x, y) with its components converted to `i16`.
pub open spec fn coord_at(x: int, y: int) -> Coord {
    Coord { x: wrap_i16(x) as i16, y: wrap_i16(y) as i16 }
}

/// On the outer edge of a `sx` by `sy` arena.
pub open spec fn on_edge(loc: Coord, sx: int, sy: int) -> bool {
    loc.x == 0 || loc.x == wrap_i16(sx - 1) || loc.y == 0 || loc.y == wrap_i16(sy - 1)
}

/// A pass with the score `(r - d) / r` for the circle of radius
/// `size / divisor` around `center`, else a fail.
pub open spec fn inside_circle(loc: Coord, center: Coord, size: u16, divisor: u32, weighted: bool) -> (
    bool,
    SurvivalScore,
) {
    let d = distance(center, loc);
    if divisor * d <= size {
        (
            true,
            if weighted {
                SurvivalScore::Inside { size, divisor, distance: d as u32 }
            } else {
                SurvivalScore::One
            },
        )
    } else {
        (false, SurvivalScore::Zero)
    }
}

/// The first corner in `corners` within `size / divisor` of `loc`, with
/// its distance.
pub open spec fn first_near_corner(loc: Coord, corners: Seq<Coord>, size: u16, divisor: u32) -> Option<
    int,
>
    decreases corners.len(),
{
    if corners.len() == 0 {
        None
    } else if divisor * distance(corners[0], loc) <= size {
        Some(distance(corners[0], loc))
    } else {
        first_near_corner(loc, corners.drop_first(), size, divisor)
    }
}

/// The four corners, in the order they are tried.
pub open spec fn corners(sx: u16, sy: u16) -> Seq<Coord> {
    seq![
        Coord { x: 0, y: 0 },
        Coord { x: 0, y: wrap_i16(sy as int - 1) as i16 },
        Coord { x: wrap_i16(sx as int - 1) as i16, y: 0 },
        Coord { x: wrap_i16(sx as int - 1) as i16, y: wrap_i16(sy as int - 1) as i16 },
    ]
}

/// The smallest distance from `loc` to one of `centers`.
pub open spec fn min_distance(loc: Coord, centers: Seq<Coord>) -> int
    decreases centers.len(),
{
    if centers.len() == 0 {
        100000000
    } else {
        let rest = min_distance(loc, centers.drop_last());
        let d = distance(loc, centers.last());
        if d < rest {
            d
        } else {
            rest
        }
    }
}

/// The number of set bits among the low `n` bits of `bits`.
pub open spec fn bit_count(bits: u32, n: nat) -> nat
    decreases n,
{
    if n == 0 {
        0
    } else {
        bit_count(bits, (n - 1) as nat) + if bits & (1u32 << ((n - 1) as u32)) != 0 {
            1nat
        } else {
            0nat
        }
    }
}

/// The outcome of `challenge` for `indiv`.
pub open spec fn survival_outcome(indiv: &Indiv, challenge: u32, params: &Params, grid: &Grid) -> (
    bool,
    SurvivalScore,
) {
    let sx = params.size_x;
    let sy = params.size_y;
    let sxi = sx as int;
    let syi = sy as int;
    let loc = indiv.loc;
    let fail = (false, SurvivalScore::Zero);
    let pass = (true, SurvivalScore::One);
    if !indiv.alive {
        fail
    } else if challenge == CHALLENGE_CIRCLE || challenge == CHALLENGE_ALTRUISM {
        inside_circle(loc, coord_at(sxi / 4, syi / 4), sx, 4, true)
    } else if challenge == CHALLENGE_RIGHT_HALF {
        if loc.x > wrap_i16(sxi / 2) { pass } else { fail }
    } else if challenge == CHALLENGE_RIGHT_QUARTER {
        if loc.x > wrap_i16(sxi / 2 + sxi / 4) { pass } else { fail }
    } else if challenge == CHALLENGE_LEFT_EIGHTH {
        if loc.x < wrap_i16(sxi / 8) { pass } else { fail }
    } else if challenge == CHALLENGE_STRING {
        if on_edge(loc, grid.width() as int, grid.height() as int) {
            fail
        } else {
            let count = block_count(grid, loc.x as int, loc.y as int, true, 9);
            if 2 <= count <= 22 { pass } else { fail }
        }
    } else if challenge == CHALLENGE_CENTER_WEIGHTED {
        inside_circle(loc, coord_at(sxi / 2, syi / 2), sx, 3, true)
    } else if challenge == CHALLENGE_CENTER_UNWEIGHTED {
        inside_circle(loc, coord_at(sxi / 2, syi / 2), sx, 3, false)
    } else if challenge == CHALLENGE_CENTER_SPARSE {
        let count = block_count(grid, loc.x as int, loc.y as int, false, 9);
        if 4 * distance(coord_at(sxi / 2, syi / 2), loc) <= sx && 5 <= count <= 8 {
            pass
        } else {
            fail
        }
    } else if challenge == CHALLENGE_CORNER {
        if first_near_corner(loc, corners(sx, sy), sx, 8) is Some { pass } else { fail }
    } else if challenge == CHALLENGE_CORNER_WEIGHTED {
        match first_near_corner(loc, corners(sx, sy), sx, 4) {
            Some(d) => (true, SurvivalScore::Inside { size: sx, divisor: 4, distance: d as u32 }),
            None => fail,
        }
    } else if challenge == CHALLENGE_RADIOACTIVE_WALLS {
        pass
    } else if challenge == CHALLENGE_AGAINST_ANY_WALL {
        if on_edge(loc, sxi, syi) { pass } else { fail }
    } else if challenge == CHALLENGE_TOUCH_ANY_WALL {
        if indiv.challenge_bits != 0 { pass } else { fail }
    } else if challenge == CHALLENGE_MIGRATE_DISTANCE {
        let d = distance(loc, indiv.birth_loc);
        let max_size: u16 = if sx >= sy { sx } else { sy };
        if d >= max_size {
            pass
        } else if 2 * d >= max_size {
            (true, SurvivalScore::Fraction { num: d as u32, den: max_size as u32 })
        } else {
            fail
        }
    } else if challenge == CHALLENGE_EAST_WEST_EIGHTHS {
        if loc.x < wrap_i16(sxi / 8) || loc.x >= wrap_i16(sxi - sxi / 8) { pass } else { fail }
    } else if challenge == CHALLENGE_NEAR_BARRIER {
        let d = min_distance(loc, grid.barrier_centers_view());
        if 2 * d <= sx {
            (true, SurvivalScore::Closeness { size: sx, distance: d as u32 })
        } else {
            fail
        }
    } else if challenge == CHALLENGE_PAIRS {
        if on_edge(loc, sxi, syi) {
            fail
        } else if paired(grid, loc.x as int, loc.y as int) {
            pass
        } else {
            fail
        }
    } else if challenge == CHALLENGE_LOCATION_SEQUENCE {
        let count = bit_count(indiv.challenge_bits, 32);
        if count > 0 {
            (true, SurvivalScore::Fraction { num: count as u32, den: 32 })
        } else {
            fail
        }
    } else {
        inside_circle(loc, coord_at(sxi - sxi / 4, syi - syi / 4), sx, 4, true)
    }
}


/// The location challenges judge a living individual by where it stands:
/// the right half passes exactly when `x > size_x / 2`, the right
/// quarter when `x > size_x / 2 + size_x / 4`, the left eighth when
/// `x < size_x / 8`, the east and west eighths when `x < size_x / 8` or
/// `x >= size_x - size_x / 8`, and "against any wall" when it stands on
/// the first or last column or row; "touch any wall" passes when it has
/// touched one during the generation, and the radioactive walls are
/// survived by all. A pass scores 1, a fail 0; the dead always fail.
pub proof fn lemma_location_challenges(indiv: &Indiv, params: &Params, grid: &Grid)
    requires
        1 <= params.size_x <= 32767,
        1 <= params.size_y <= 32767,
    ensures
        !indiv.alive ==> forall|c: u32| #[trigger] survival_outcome(indiv, c, params, grid) == (false, SurvivalScore::Zero),
        indiv.alive ==> survival_outcome(indiv, CHALLENGE_RIGHT_HALF, params, grid) == if indiv.loc.x > params.size_x / 2 {
            (true, SurvivalScore::One)
        } else {
            (false, SurvivalScore::Zero)
        },
        indiv.alive ==> survival_outcome(indiv, CHALLENGE_RIGHT_QUARTER, params, grid) == if indiv.loc.x
            > params.size_x / 2 + params.size_x / 4 {
            (true, SurvivalScore::One)
        } else {
            (false, SurvivalScore::Zero)
        },
        indiv.alive ==> survival_outcome(indiv, CHALLENGE_LEFT_EIGHTH, params, grid) == if indiv.loc.x < params.size_x / 8 {
            (true, SurvivalScore::One)
        } else {
            (false, SurvivalScore::Zero)
        },
        indiv.alive ==> survival_outcome(indiv, CHALLENGE_EAST_WEST_EIGHTHS, params, grid) == if indiv.loc.x
            < params.size_x / 8 || indiv.loc.x >= params.size_x - params.size_x / 8 {
            (true, SurvivalScore::One)
        } else {
            (false, SurvivalScore::Zero)
        },
        indiv.alive ==> survival_outcome(indiv, CHALLENGE_AGAINST_ANY_WALL, params, grid) == if indiv.loc.x == 0
            || indiv.loc.x == params.size_x - 1 || indiv.loc.y == 0 || indiv.loc.y == params.size_y - 1 {
            (true, SurvivalScore::One)
        } else {
            (false, SurvivalScore::Zero)
        },
        indiv.alive ==> survival_outcome(indiv, CHALLENGE_TOUCH_ANY_WALL, params, grid) == if indiv.challenge_bits != 0 {
            (true, SurvivalScore::One)
        } else {
            (false, SurvivalScore::Zero)
        },
        indiv.alive ==> survival_outcome(indiv, CHALLENGE_RADIOACTIVE_WALLS, params, grid) == (true, SurvivalScore::One),
{
    let sx = params.size_x as int;
    let sy = params.size_y as int;
    assert(wrap_i16(sx / 2) == sx / 2);
    assert(wrap_i16(sx / 2 + sx / 4) == sx / 2 + sx / 4);
    assert(wrap_i16(sx / 8) == sx / 8);
    assert(wrap_i16(sx - sx / 8) == sx - sx / 8);
    assert(wrap_i16(sx - 1) == sx - 1);
    assert(wrap_i16(sy - 1) == sy - 1);
}

/// The circle challenge passes a living individual whose distance `d`
/// from `(size_x / 4, size_y / 4)` satisfies `4 * d <= size_x`, scored by
/// how far inside the circle of radius `size_x / 4` it stands; the
/// sacrifice challenge does the same around
/// `(size_x - size_x / 4, size_y - size_y / 4)`.
#[verifier::rlimit(40)]
pub proof fn lemma_circle_challenges(indiv: &Indiv, params: &Params, grid: &Grid)
    requires
        indiv.alive,
        1 <= params.size_x <= 32767,
        1 <= params.size_y <= 32767,
    ensures
        ({
            let (sx, sy, loc) = (params.size_x as int, params.size_y as int, indiv.loc);
            let d = distance(Coord { x: (sx / 4) as i16, y: (sy / 4) as i16 }, loc);
            survival_outcome(indiv, CHALLENGE_CIRCLE, params, grid) == if 4 * d <= sx {
                (true, SurvivalScore::Inside { size: params.size_x, divisor: 4, distance: d as u32 })
            } else {
                (false, SurvivalScore::Zero)
            }
        }),
        ({
            let (sx, sy, loc) = (params.size_x as int, params.size_y as int, indiv.loc);
            let d = distance(Coord { x: (sx - sx / 4) as i16, y: (sy - sy / 4) as i16 }, loc);
            survival_outcome(indiv, CHALLENGE_ALTRUISM_SACRIFICE, params, grid) == if 4 * d <= sx {
                (true, SurvivalScore::Inside { size: params.size_x, divisor: 4, distance: d as u32 })
            } else {
                (false, SurvivalScore::Zero)
            }
        }),
{
    let sx = params.size_x as int;
    let sy = params.size_y as int;
    assert(coord_at(sx / 4, sy / 4) == Coord { x: (sx / 4) as i16, y: (sy / 4) as i16 });
    assert(coord_at(sx - sx / 4, sy - sy / 4) == Coord { x: (sx - sx / 4) as i16, y: (sy - sy / 4) as i16 });
}

/// The center challenges pass a living individual whose distance `d` from
/// `(size_x / 2, size_y / 2)` satisfies `3 * d <= size_x`, the weighted one
/// scored by how far inside the circle of radius `size_x / 3` it stands,
/// the unweighted one with 1.
#[verifier::rlimit(40)]
pub proof fn lemma_center_challenges(indiv: &Indiv, params: &Params, grid: &Grid)
    requires
        indiv.alive,
        1 <= params.size_x <= 32767,
        1 <= params.size_y <= 32767,
    ensures
        ({
            let (sx, sy, loc) = (params.size_x as int, params.size_y as int, indiv.loc);
            let d = distance(Coord { x: (sx / 2) as i16, y: (sy / 2) as i16 }, loc);
            &&& survival_outcome(indiv, CHALLENGE_CENTER_WEIGHTED, params, grid) == if 3 * d <= sx {
                (true, SurvivalScore::Inside { size: params.size_x, divisor: 3, distance: d as u32 })
            } else {
                (false, SurvivalScore::Zero)
            }
            &&& survival_outcome(indiv, CHALLENGE_CENTER_UNWEIGHTED, params, grid) == if 3 * d <= sx {
                (true, SurvivalScore::One)
            } else {
                (false, SurvivalScore::Zero)
            }
        }),
{
    let sx = params.size_x as int;
    let sy = params.size_y as int;
    assert(coord_at(sx / 2, sy / 2) == Coord { x: (sx / 2) as i16, y: (sy / 2) as i16 });
}

/// Migration passes a living individual with score 1 when it has moved at
/// least the larger arena side `m` from its birth place, with `d / m` when
/// its distance `d` from there is at least half of it, and fails it
/// otherwise.
#[verifier::rlimit(40)]
pub proof fn lemma_migration_challenge(indiv: &Indiv, params: &Params, grid: &Grid)
    requires
        indiv.alive,
        1 <= params.size_x <= 32767,
        1 <= params.size_y <= 32767,
    ensures
        ({
            let d = distance(indiv.loc, indiv.birth_loc);
            let m = if params.size_x >= params.size_y {
                params.size_x as int
            } else {
                params.size_y as int
            };
            survival_outcome(indiv, CHALLENGE_MIGRATE_DISTANCE, params, grid) == if d >= m {
                (true, SurvivalScore::One)
            } else if 2 * d >= m {
                (true, SurvivalScore::Fraction { num: d as u32, den: m as u32 })
            } else {
                (false, SurvivalScore::Zero)
            }
        }),
{
}

/// The smallest distance to a list of centers is the distance to one of
/// them and no more than the distance to any of them.
pub proof fn lemma_min_distance_is_smallest(loc: Coord, centers: Seq<Coord>)
    ensures
        forall|i: int| 0 <= i < centers.len() ==> min_distance(loc, centers) <= distance(loc, #[trigger] centers[i]),
        centers.len() > 0 ==> exists|i: int|
            0 <= i < centers.len() && min_distance(loc, centers) == distance(loc, #[trigger] centers[i]),
    decreases centers.len(),
{
    if centers.len() > 0 {
        let rest = centers.drop_last();
        lemma_min_distance_is_smallest(loc, rest);
        assert forall|i: int| 0 <= i < centers.len() implies min_distance(loc, centers) <= distance(
            loc,
            #[trigger] centers[i],
        ) by {
            if i < rest.len() {
                assert(centers[i] == rest[i]);
            }
        }
        crate::basic_types::lemma_distance_nonnegative(loc, centers.last());
        if rest.len() > 0 && min_distance(loc, rest) <= distance(loc, centers.last()) {
            let i = choose|i: int| 0 <= i < rest.len() && min_distance(loc, rest) == distance(loc, #[trigger] rest[i]);
            assert(centers[i] == rest[i]);
        } else {
            assert(centers[centers.len() - 1] == centers.last());
        }
    }
}

/// The near-barrier challenge passes a living individual exactly when a
/// barrier center lies within `size_x / 2` of it, scored by its distance
/// from the nearest center, which is the distance to one of the centers
/// and no more than the distance to any.
pub proof fn lemma_near_barrier_challenge(indiv: &Indiv, params: &Params, grid: &Grid)
    requires
        indiv.alive,
    ensures
        ({
            let centers = grid.barrier_centers_view();
            let r = survival_outcome(indiv, CHALLENGE_NEAR_BARRIER, params, grid);
            &&& r.0 <==> exists|i: int|
                0 <= i < centers.len() && 2 * distance(indiv.loc, #[trigger] centers[i]) <= params.size_x
            &&& r.0 ==> (r.1 matches SurvivalScore::Closeness { size, distance: d } && size == params.size_x
                && (forall|i: int| 0 <= i < centers.len() ==> d <= distance(indiv.loc, #[trigger] centers[i]))
                && exists|i: int| 0 <= i < centers.len() && d == distance(indiv.loc, #[trigger] centers[i]))
            &&& !r.0 ==> r.1 == SurvivalScore::Zero
        }),
{
    let centers = grid.barrier_centers_view();
    lemma_min_distance_is_smallest(indiv.loc, centers);
    lemma_min_distance_nonnegative(indiv.loc, centers);
    let m = min_distance(indiv.loc, centers);
    if exists|i: int| 0 <= i < centers.len() && 2 * distance(indiv.loc, #[trigger] centers[i]) <= params.size_x {
        let i = choose|i: int| 0 <= i < centers.len() && 2 * distance(indiv.loc, #[trigger] centers[i]) <= params.size_x;
        assert(m <= distance(indiv.loc, centers[i]));
    }
    if 2 * m <= params.size_x {
        assert(centers.len() > 0);
        assert(m as u32 == m);
    }
}

/// The corner challenges pass a living individual near one of the four
/// corners `(0, 0)`, `(0, size_y - 1)`, `(size_x - 1, 0)` and
/// `(size_x - 1, size_y - 1)` of a square arena: within `size_x / 8` of
/// one for the plain challenge (scoring 1), within `size_x / 4` for the
/// weighted one (scored by how far inside it stands).
pub proof fn lemma_corner_challenges(indiv: &Indiv, params: &Params, grid: &Grid)
    requires
        indiv.alive,
        1 <= params.size_x <= 32767,
        1 <= params.size_y <= 32767,
    ensures
        ({
            let (sx, sy, loc) = (params.size_x as int, params.size_y as int, indiv.loc);
            let near = |k: int|
                k * distance(Coord { x: 0, y: 0 }, loc) <= sx || k * distance(Coord { x: 0, y: (sy - 1) as i16 }, loc)
                    <= sx || k * distance(Coord { x: (sx - 1) as i16, y: 0 }, loc) <= sx || k * distance(
                    Coord { x: (sx - 1) as i16, y: (sy - 1) as i16 },
                    loc,
                ) <= sx;
            &&& survival_outcome(indiv, CHALLENGE_CORNER, params, grid) == if near(8) {
                (true, SurvivalScore::One)
            } else {
                (false, SurvivalScore::Zero)
            }
            &&& survival_outcome(indiv, CHALLENGE_CORNER_WEIGHTED, params, grid).0 == near(4)
            &&& near(4) ==> (survival_outcome(indiv, CHALLENGE_CORNER_WEIGHTED, params, grid).1 matches SurvivalScore::Inside {
                size,
                divisor,
                distance: d,
            } && size == params.size_x && divisor == 4 && 4 * d <= sx)
        }),
{
    let sx = params.size_x as int;
    let sy = params.size_y as int;
    let cs = corners(params.size_x, params.size_y);
    crate::basic_types::lemma_distance_nonnegative(cs[0], indiv.loc);
    crate::basic_types::lemma_distance_nonnegative(cs[1], indiv.loc);
    crate::basic_types::lemma_distance_nonnegative(cs[2], indiv.loc);
    crate::basic_types::lemma_distance_nonnegative(cs[3], indiv.loc);
    assert(wrap_i16(sx - 1) == sx - 1);
    assert(wrap_i16(sy - 1) == sy - 1);
    assert(cs.drop_first()[0] == cs[1]);
    assert(cs.drop_first().drop_first()[0] == cs[2]);
    assert(cs.drop_first().drop_first().drop_first()[0] == cs[3]);
    assert(cs.drop_first().drop_first().drop_first().drop_first().len() == 0);
    reveal_with_fuel(first_near_corner, 5);
}

/// Bit `k` of `bits` is not set.
spec fn bit_clear(bits: u32, k: int) -> bool {
    bits & (1u32 << (k as u32)) == 0
}

/// No bit among the low `n` is counted exactly when none of them is set.
proof fn lemma_bit_count_zero(bits: u32, n: nat)
    requires
        n <= 32,
    ensures
        bit_count(bits, n) == 0 <==> forall|k: int| 0 <= k < n ==> #[trigger] bit_clear(bits, k),
    decreases n,
{
    if n > 0 {
        let m = (n - 1) as nat;
        lemma_bit_count_zero(bits, m);
        assert(bit_clear(bits, m as int) <==> bits & (1u32 << (m as u32)) == 0);
        if bit_count(bits, n) == 0 {
            assert forall|k: int| 0 <= k < n implies #[trigger] bit_clear(bits, k) by {
                if k < m {
                    assert(bit_clear(bits, k));
                }
            }
        }
        if forall|k: int| 0 <= k < n ==> #[trigger] bit_clear(bits, k) {
            assert(bit_clear(bits, m as int));
            assert forall|k: int| 0 <= k < m implies #[trigger] bit_clear(bits, k) by {
                assert(bit_clear(bits, k));
            }
        }
    }
}

/// The location-sequence challenge passes a living individual exactly
/// when it has reached at least one barrier center (some challenge bit is
/// set), scored by the number of set bits out of 32, from 1 to 32.
pub proof fn lemma_location_sequence_challenge(indiv: &Indiv, params: &Params, grid: &Grid)
    requires
        indiv.alive,
    ensures
        survival_outcome(indiv, CHALLENGE_LOCATION_SEQUENCE, params, grid).0 <==> indiv.challenge_bits != 0,
        indiv.challenge_bits == 0 ==> survival_outcome(indiv, CHALLENGE_LOCATION_SEQUENCE, params, grid).1
            == SurvivalScore::Zero,
        indiv.challenge_bits != 0 ==> (survival_outcome(indiv, CHALLENGE_LOCATION_SEQUENCE, params, grid).1 matches SurvivalScore::Fraction {
            num,
            den,
        } && den == 32 && 1 <= num <= 32),
{
    let bits = indiv.challenge_bits;
    lemma_bit_count_zero(bits, 32);
    lemma_bit_count_bound(bits, 32);
    if bit_count(bits, 32) == 0 {
        assert(bit_clear(bits, 0));
        assert(bit_clear(bits, 1));
        assert(bit_clear(bits, 2));
        assert(bit_clear(bits, 3));
        assert(bit_clear(bits, 4));
        assert(bit_clear(bits, 5));
        assert(bit_clear(bits, 6));
        assert(bit_clear(bits, 7));
        assert(bit_clear(bits, 8));
        assert(bit_clear(bits, 9));
        assert(bit_clear(bits, 10));
        assert(bit_clear(bits, 11));
        assert(bit_clear(bits, 12));
        assert(bit_clear(bits, 13));
        assert(bit_clear(bits, 14));
        assert(bit_clear(bits, 15));
        assert(bit_clear(bits, 16));
        assert(bit_clear(bits, 17));
        assert(bit_clear(bits, 18));
        assert(bit_clear(bits, 19));
        assert(bit_clear(bits, 20));
        assert(bit_clear(bits, 21));
        assert(bit_clear(bits, 22));
        assert(bit_clear(bits, 23));
        assert(bit_clear(bits, 24));
        assert(bit_clear(bits, 25));
        assert(bit_clear(bits, 26));
        assert(bit_clear(bits, 27));
        assert(bit_clear(bits, 28));
        assert(bit_clear(bits, 29));
        assert(bit_clear(bits, 30));
        assert(bit_clear(bits, 31));
        assert(bits == 0) by (bit_vector)
            requires
                bits & (1u32 << 0u32) == 0 && bits & (1u32 << 1u32) == 0 && bits & (1u32 << 2u32) == 0 && bits & (1u32 << 3u32) == 0 && bits & (1u32 << 4u32) == 0 && bits & (1u32 << 5u32) == 0 && bits & (1u32 << 6u32) == 0 && bits & (1u32 << 7u32) == 0 && bits & (1u32 << 8u32) == 0 && bits & (1u32 << 9u32) == 0 && bits & (1u32 << 10u32) == 0 && bits & (1u32 << 11u32) == 0 && bits & (1u32 << 12u32) == 0 && bits & (1u32 << 13u32) == 0 && bits & (1u32 << 14u32) == 0 && bits & (1u32 << 15u32) == 0 && bits & (1u32 << 16u32) == 0 && bits & (1u32 << 17u32) == 0 && bits & (1u32 << 18u32) == 0 && bits & (1u32 << 19u32) == 0 && bits & (1u32 << 20u32) == 0 && bits & (1u32 << 21u32) == 0 && bits & (1u32 << 22u32) == 0 && bits & (1u32 << 23u32) == 0 && bits & (1u32 << 24u32) == 0 && bits & (1u32 << 25u32) == 0 && bits & (1u32 << 26u32) == 0 && bits & (1u32 << 27u32) == 0 && bits & (1u32 << 28u32) == 0 && bits & (1u32 << 29u32) == 0 && bits & (1u32 << 30u32) == 0 && bits & (1u32 << 31u32) == 0,
        ;
    }
    if bits == 0 {
        assert forall|k: int| 0 <= k < 32 implies #[trigger] bit_clear(bits, k) by {
            let kk = k as u32;
            assert(0u32 & (1u32 << kk) == 0) by (bit_vector);
        }
    }
}

/// Distinct counted cells add up.
proof fn lemma_block_count_two(grid: &Grid, cx: int, cy: int, skip: bool, k1: int, k2: int, n: int)
    requires
        0 <= k1 < n,
        0 <= k2 < n,
        k1 != k2,
        (!skip || k1 != 4) && occupied_cell(grid, block_x(cx, k1), block_y(cy, k1)),
        (!skip || k2 != 4) && occupied_cell(grid, block_x(cx, k2), block_y(cy, k2)),
    ensures
        block_count(grid, cx, cy, skip, n) >= 2,
    decreases n,
{
    if n - 1 != k1 && n - 1 != k2 {
        lemma_block_count_two(grid, cx, cy, skip, k1, k2, n - 1);
    } else {
        let other = if n - 1 == k1 { k2 } else { k1 };
        lemma_block_count_one(grid, cx, cy, skip, other, n - 1);
    }
}

proof fn lemma_block_count_one(grid: &Grid, cx: int, cy: int, skip: bool, k: int, n: int)
    requires
        0 <= k < n,
        (!skip || k != 4) && occupied_cell(grid, block_x(cx, k), block_y(cy, k)),
    ensures
        block_count(grid, cx, cy, skip, n) >= 1,
    decreases n,
{
    if n - 1 != k {
        lemma_block_count_one(grid, cx, cy, skip, k, n - 1);
    }
}

/// Whether an individual stands at (x, y) inside the grid.
fn occupied_at(grid: &Grid, x: i32, y: i32) -> (b: bool)
    requires
        grid.wf(),
        i16::MIN <= x <= i16::MAX,
        i16::MIN <= y <= i16::MAX,
    ensures
        b == occupied_cell(grid, x as int, y as int),
{
    let c = Coord { x: x as i16, y: y as i16 };
    grid.is_in_bounds(c) && grid.is_occupied_at(c)
}

/// How many cells of the 3x3 block around (cx, cy) hold an individual.
fn block_occupancy(grid: &Grid, cx: i16, cy: i16, skip_center: bool) -> (n: u32)
    requires
        grid.wf(),
        i16::MIN < cx < i16::MAX,
        i16::MIN < cy < i16::MAX,
    ensures
        n == block_count(grid, cx as int, cy as int, skip_center, 9),
        n <= 9,
{
    let mut n: u32 = 0;
    let mut k: i32 = 0;
    while k < 9
        invariant
            0 <= k <= 9,
            grid.wf(),
            i16::MIN < cx < i16::MAX,
            i16::MIN < cy < i16::MAX,
            n == block_count(grid, cx as int, cy as int, skip_center, k as int),
            n <= k,
        decreases 9 - k,
    {
        let x = cx as i32 + k / 3 - 1;
        let y = cy as i32 + k % 3 - 1;
        if (!skip_center || k != 4) && occupied_at(grid, x, y) {
            n = n + 1;
        }
        k = k + 1;
    }
    n
}

/// Whether the individual at (nx, ny) has no neighbor but (lx, ly).
fn partner_is_lonely(grid: &Grid, nx: i16, ny: i16, lx: i16, ly: i16) -> (b: bool)
    requires
        grid.wf(),
        i16::MIN < nx < i16::MAX,
        i16::MIN < ny < i16::MAX,
    ensures
        b == lonely_partner(grid, nx as int, ny as int, lx as int, ly as int),
{
    let mut k: i32 = 0;
    while k < 9
        invariant
            0 <= k <= 9,
            grid.wf(),
            i16::MIN < nx < i16::MAX,
            i16::MIN < ny < i16::MAX,
            forall|j: int|
                0 <= j < k && j != 4 && !(block_x(nx as int, j) == lx && block_y(ny as int, j)
                    == ly) ==> !occupied_cell(grid, #[trigger] block_x(nx as int, j), block_y(ny as int, j)),
        decreases 9 - k,
    {
        let x = nx as i32 + k / 3 - 1;
        let y = ny as i32 + k % 3 - 1;
        if k != 4 && !(x == lx as i32 && y == ly as i32) && occupied_at(grid, x, y) {
            assert(block_x(nx as int, k as int) == x);
            return false;
        }
        k = k + 1;
    }
    true
}

/// Whether the individual at `loc` has exactly one neighbor, which has no
/// other neighbor.
fn is_paired(grid: &Grid, loc: Coord) -> (b: bool)
    requires
        grid.wf(),
        i16::MIN + 1 < loc.x < i16::MAX - 1,
        i16::MIN + 1 < loc.y < i16::MAX - 1,
    ensures
        b == paired(grid, loc.x as int, loc.y as int),
{
    let count = block_occupancy(grid, loc.x, loc.y, true);
    if count != 1 {
        return false;
    }
    let mut k: i32 = 0;
    while k < 9
        invariant
            0 <= k <= 9,
            grid.wf(),
            i16::MIN + 1 < loc.x < i16::MAX - 1,
            i16::MIN + 1 < loc.y < i16::MAX - 1,
            block_count(grid, loc.x as int, loc.y as int, true, 9) == 1,
            block_count(grid, loc.x as int, loc.y as int, true, k as int) == 0,
        decreases 9 - k,
    {
        let x = loc.x as i32 + k / 3 - 1;
        let y = loc.y as i32 + k % 3 - 1;
        if k != 4 && occupied_at(grid, x, y) {
            let lonely = partner_is_lonely(grid, x as i16, y as i16, loc.x, loc.y);
            proof {
                assert(x == block_x(loc.x as int, k as int));
                assert(y == block_y(loc.y as int, k as int));
                assert forall|j: int|
                    0 <= j < 9 && j != 4 && occupied_cell(
                        grid,
                        #[trigger] block_x(loc.x as int, j),
                        block_y(loc.y as int, j),
                    ) implies j == k by {
                    if j != k {
                        lemma_block_count_two(grid, loc.x as int, loc.y as int, true, j, k as int, 9);
                    }
                }
                if lonely {
                    assert(paired(grid, loc.x as int, loc.y as int));
                } else {
                    assert(!lonely_partner(grid, block_x(loc.x as int, k as int), block_y(loc.y as int, k as int), loc.x as int, loc.y as int));
                }
            }
            return lonely;
        }
        k = k + 1;
    }
    false
}

/// The first of `corners` within `size / divisor` of `loc`, with its
/// distance.
fn find_near_corner(loc: Coord, corners: &Vec<Coord>, size: u16, divisor: u32) -> (r: Option<u32>)
    requires
        divisor <= 8,
    ensures
        r == (match first_near_corner(loc, corners@, size, divisor) {
            Some(d) => Some(d as u32),
            None => None,
        }),
{
    let mut i: usize = 0;
    assert(corners@.subrange(0, corners.len() as int) == corners@);
    while i < corners.len()
        invariant
            i <= corners.len(),
            divisor <= 8,
            first_near_corner(loc, corners@, size, divisor) == first_near_corner(
                loc,
                corners@.subrange(i as int, corners.len() as int),
                size,
                divisor,
            ),
        decreases corners.len() - i,
    {
        let d = distance_between(corners[i], loc);
        assert(divisor as u64 * d as u64 <= 0x80000) by (nonlinear_arith)
            requires
                divisor <= 8,
                d <= 0x10000,
        ;
        assert(corners@.subrange(i as int, corners.len() as int)[0] == corners@[i as int]);
        if divisor as u64 * d as u64 <= size as u64 {
            return Some(d);
        }
        assert(corners@.subrange(i as int, corners.len() as int).drop_first() == corners@.subrange(
            i + 1,
            corners.len() as int,
        ));
        i = i + 1;
    }
    None
}

/// The smallest distance from `loc` to one of `centers`.
fn nearest_distance(loc: Coord, centers: &[Coord]) -> (d: u32)
    ensures
        d == min_distance(loc, centers@),
{
    let mut min: u32 = 100000000;
    let mut i: usize = 0;
    while i < centers.len()
        invariant
            i <= centers.len(),
            min == min_distance(loc, centers@.take(i as int)),
        decreases centers.len() - i,
    {
        let d = distance_between(loc, centers[i]);
        assert(centers@.take(i + 1).drop_last() == centers@.take(i as int));
        if d < min {
            min = d;
        }
        i = i + 1;
    }
    assert(centers@.take(centers.len() as int) == centers@);
    min
}

/// The number of set bits of `bits`.
fn count_bits(bits: u32) -> (c: u32)
    ensures
        c == bit_count(bits, 32),
        c <= 32,
{
    let mut count: u32 = 0;
    let mut n: u32 = 0;
    while n < 32
        invariant
            n <= 32,
            count == bit_count(bits, n as nat),
            count <= n,
        decreases 32 - n,
    {
        if bits & (1u32 << n) != 0 {
            count = count + 1;
        }
        n = n + 1;
    }
    count
}

/// The outcome of the circle test (see `inside_circle`).
fn circle_outcome(loc: Coord, center: Coord, size: u16, divisor: u32, weighted: bool) -> (r: (
    bool,
    SurvivalScore,
))
    requires
        divisor <= 8,
    ensures
        r == inside_circle(loc, center, size, divisor, weighted),
{
    let d = distance_between(center, loc);
    assert(divisor as u64 * d as u64 <= 0x80000) by (nonlinear_arith)
        requires
            divisor <= 8,
            d <= 0x10000,
    ;
    if divisor as u64 * d as u64 <= size as u64 {
        if weighted {
            (true, SurvivalScore::Inside { size, divisor, distance: d })
        } else {
            (true, SurvivalScore::One)
        }
    } else {
        (false, SurvivalScore::Zero)
    }
}

/// `v` converted to `i16` with wrap-around.
fn to_i16(v: u16) -> (r: i16)
    ensures
        r as int == wrap_i16(v as int),
{
    crate::grid::wrap_u16_to_i16(v)
}

proof fn lemma_min_distance_nonnegative(loc: Coord, centers: Seq<Coord>)
    ensures
        min_distance(loc, centers) >= 0,
    decreases centers.len(),
{
    if centers.len() > 0 {
        lemma_min_distance_nonnegative(loc, centers.drop_last());
        crate::basic_types::lemma_distance_nonnegative(loc, centers.last());
    }
}

proof fn lemma_bit_count_bound(bits: u32, n: nat)
    ensures
        bit_count(bits, n) <= n,
    decreases n,
{
    if n > 0 {
        lemma_bit_count_bound(bits, (n - 1) as nat);
    }
}

proof fn lemma_first_near_corner(loc: Coord, cs: Seq<Coord>, size: u16, divisor: u32)
    ensures
        first_near_corner(loc, cs, size, divisor) matches Some(d) ==> divisor * d <= size && d >= 0,
    decreases cs.len(),
{
    if cs.len() > 0 {
        lemma_first_near_corner(loc, cs.drop_first(), size, divisor);
        crate::basic_types::lemma_distance_nonnegative(cs[0], loc);
    }
}

/// Every survival score lies in 0..=1 (see `score_in_unit_range`), and a
/// failed test scores 0.
pub proof fn lemma_outcome_in_unit_range(indiv: &Indiv, challenge: u32, params: &Params, grid: &Grid)
    ensures
        score_in_unit_range(survival_outcome(indiv, challenge, params, grid).1),
        !survival_outcome(indiv, challenge, params, grid).0 ==> survival_outcome(indiv, challenge, params, grid).1
            == SurvivalScore::Zero,
{
    assert forall|a: Coord, b: Coord| #[trigger] distance(a, b) >= 0 by {
        crate::basic_types::lemma_distance_nonnegative(a, b);
    }
    lemma_bit_count_bound(indiv.challenge_bits, 32);
    lemma_first_near_corner(indiv.loc, corners(params.size_x, params.size_y), params.size_x, 4);
    lemma_min_distance_nonnegative(indiv.loc, grid.barrier_centers_view());
}


/// Whether the individual passed `challenge`, and its score (see
/// `survival_outcome`).
pub fn passed_survival_criterion(indiv: &Indiv, challenge: u32, params: &Params, grid: &Grid) -> (r: (
    bool,
    SurvivalScore,
))
    requires
        grid.wf(),
        known_challenge(challenge),
        indiv.alive ==> {
            &&& (challenge == CHALLENGE_STRING || challenge == CHALLENGE_CENTER_SPARSE) ==> {
                &&& grid.width() == params.size_x
                &&& grid.height() == params.size_y
                &&& i16::MIN < indiv.loc.x < i16::MAX
                &&& i16::MIN < indiv.loc.y < i16::MAX
            }
            &&& challenge == CHALLENGE_STRING ==> params.size_x >= 1 && params.size_y >= 1
            &&& (challenge == CHALLENGE_CORNER || challenge == CHALLENGE_CORNER_WEIGHTED) ==> {
                &&& params.size_x == params.size_y
                &&& params.size_x >= 1
            }
            &&& (challenge == CHALLENGE_AGAINST_ANY_WALL || challenge == CHALLENGE_PAIRS) ==> {
                &&& params.size_x >= 1
                &&& params.size_y >= 1
            }
            &&& challenge == CHALLENGE_PAIRS ==> {
                &&& i16::MIN + 1 < indiv.loc.x < i16::MAX - 1
                &&& i16::MIN + 1 < indiv.loc.y < i16::MAX - 1
            }
        },
    ensures
        r == survival_outcome(indiv, challenge, params, grid),
        score_in_unit_range(r.1),
{
    proof {
        lemma_outcome_in_unit_range(indiv, challenge, params, grid);
    }
    let fail = (false, SurvivalScore::Zero);
    let pass = (true, SurvivalScore::One);
    if !indiv.alive {
        return fail;
    }
    let sx = params.size_x;
    let sy = params.size_y;
    let loc = indiv.loc;
    if challenge == CHALLENGE_CIRCLE || challenge == CHALLENGE_ALTRUISM {
        let center = Coord { x: to_i16(sx / 4), y: to_i16(sy / 4) };
        circle_outcome(loc, center, sx, 4, true)
    } else if challenge == CHALLENGE_RIGHT_HALF {
        if loc.x > to_i16(sx / 2) {
            pass
        } else {
            fail
        }
    } else if challenge == CHALLENGE_RIGHT_QUARTER {
        if loc.x > to_i16(sx / 2 + sx / 4) {
            pass
        } else {
            fail
        }
    } else if challenge == CHALLENGE_LEFT_EIGHTH {
        if loc.x < to_i16(sx / 8) {
            pass
        } else {
            fail
        }
    } else if challenge == CHALLENGE_STRING {
        if grid.is_border(loc) {
            return fail;
        }
        let count = block_occupancy(grid, loc.x, loc.y, true);
        if count >= 2 && count <= 22 {
            pass
        } else {
            fail
        }
    } else if challenge == CHALLENGE_CENTER_WEIGHTED {
        let center = Coord { x: to_i16(sx / 2), y: to_i16(sy / 2) };
        circle_outcome(loc, center, sx, 3, true)
    } else if challenge == CHALLENGE_CENTER_UNWEIGHTED {
        let center = Coord { x: to_i16(sx / 2), y: to_i16(sy / 2) };
        circle_outcome(loc, center, sx, 3, false)
    } else if challenge == CHALLENGE_CENTER_SPARSE {
        let center = Coord { x: to_i16(sx / 2), y: to_i16(sy / 2) };
        let d = distance_between(center, loc);
        if 4 * (d as u64) <= sx as u64 {
            let count = block_occupancy(grid, loc.x, loc.y, false);
            if count >= 5 && count <= 8 {
                return pass;
            }
        }
        fail
    } else if challenge == CHALLENGE_CORNER || challenge == CHALLENGE_CORNER_WEIGHTED {
        let mut cs: Vec<Coord> = Vec::new();
        cs.push(Coord { x: 0, y: 0 });
        cs.push(Coord { x: 0, y: to_i16(sy - 1) });
        cs.push(Coord { x: to_i16(sx - 1), y: 0 });
        cs.push(Coord { x: to_i16(sx - 1), y: to_i16(sy - 1) });
        assert(cs@ == corners(sx, sy));
        if challenge == CHALLENGE_CORNER {
            match find_near_corner(loc, &cs, sx, 8) {
                Some(_) => pass,
                None => fail,
            }
        } else {
            match find_near_corner(loc, &cs, sx, 4) {
                Some(d) => (true, SurvivalScore::Inside { size: sx, divisor: 4, distance: d }),
                None => fail,
            }
        }
    } else if challenge == CHALLENGE_RADIOACTIVE_WALLS {
        pass
    } else if challenge == CHALLENGE_AGAINST_ANY_WALL {
        if loc.x == 0 || loc.x == to_i16(sx - 1) || loc.y == 0 || loc.y == to_i16(sy - 1) {
            pass
        } else {
            fail
        }
    } else if challenge == CHALLENGE_TOUCH_ANY_WALL {
        if indiv.challenge_bits != 0 {
            pass
        } else {
            fail
        }
    } else if challenge == CHALLENGE_MIGRATE_DISTANCE {
        let d = distance_between(loc, indiv.birth_loc);
        let max_size: u16 = if sx >= sy {
            sx
        } else {
            sy
        };
        if d as u64 >= max_size as u64 {
            pass
        } else if 2 * (d as u64) >= max_size as u64 {
            (true, SurvivalScore::Fraction { num: d, den: max_size as u32 })
        } else {
            fail
        }
    } else if challenge == CHALLENGE_EAST_WEST_EIGHTHS {
        if loc.x < to_i16(sx / 8) || loc.x >= to_i16(sx - sx / 8) {
            pass
        } else {
            fail
        }
    } else if challenge == CHALLENGE_NEAR_BARRIER {
        let d = nearest_distance(loc, grid.get_barrier_centers());
        if 2 * (d as u64) <= sx as u64 {
            (true, SurvivalScore::Closeness { size: sx, distance: d })
        } else {
            fail
        }
    } else if challenge == CHALLENGE_PAIRS {
        if loc.x == 0 || loc.x == to_i16(sx - 1) || loc.y == 0 || loc.y == to_i16(sy - 1) {
            return fail;
        }
        if is_paired(grid, loc) {
            pass
        } else {
            fail
        }
    } else if challenge == CHALLENGE_LOCATION_SEQUENCE {
        let count = count_bits(indiv.challenge_bits);
        if count > 0 {
            (true, SurvivalScore::Fraction { num: count, den: 32 })
        } else {
            fail
        }
    } else {
        let center = Coord { x: to_i16(sx - sx / 4), y: to_i16(sy - sy / 4) };
        circle_outcome(loc, center, sx, 4, true)
    }
}

} // verus!
