//! Barriers: the fixed obstacles of an arena, drawn at the start of each
//! generation.
use vstd::prelude::*;

use crate::basic_types::{distance, distance_between, wrap_i16, Coord};
use crate::grid::{in_neighborhood, coord_before, visit_neighborhood, Grid, BARRIER};
use crate::params::Params;
use crate::genome_neurons::{lemma_advance_add, lemma_advance_next};
use crate::random::{random_uint_range, RandomUintGenerator, RngState};

verus! {

/// The locations (x, y0), (x, y0 + 1), ..., (x, y1).
pub open spec fn column_points(x: int, y0: int, y1: int) -> Seq<Coord> {
    Seq::new(
        if y1 >= y0 {
            (y1 - y0 + 1) as nat
        } else {
            0
        },
        |j: int| Coord { x: x as i16, y: (y0 + j) as i16 },
    )
}

/// The locations of the box from (x0, y0) to (x1, y1), both included,
/// column by column.
pub open spec fn box_points(x0: int, y0: int, x1: int, y1: int) -> Seq<Coord>
    decreases x1 - x0 + 1,
{
    if x1 < x0 {
        Seq::empty()
    } else {
        box_points(x0, y0, x1 - 1, y1) + column_points(x1, y0, y1)
    }
}

/// `s` lists the locations of the disk of radius `num / den` around
/// `center` inside the `w` by `h` area, each once, column by column.
pub open spec fn neighborhood_list(s: Seq<Coord>, center: Coord, num: int, den: int, w: int, h: int) -> bool {
    &&& forall|i: int| 0 <= i < s.len() ==> in_neighborhood(center, #[trigger] s[i], num, den, w, h)
    &&& forall|c: Coord| in_neighborhood(center, c, num, den, w, h) ==> #[trigger] s.contains(c)
    &&& forall|i: int, j: int| 0 <= i < j < s.len() ==> coord_before(#[trigger] s[i], #[trigger] s[j])
}

/// `new_g` is `old_g` with a barrier stored at each location of `pts`
/// that lies inside the arena.
pub open spec fn barrier_marked(old_g: &Grid, new_g: &Grid, pts: Seq<Coord>) -> bool {
    &&& new_g.wf()
    &&& new_g.width() == old_g.width()
    &&& new_g.height() == old_g.height()
    &&& forall|x: int, y: int| #[trigger]
        new_g.value_at(x, y) == if old_g.contains(x, y) && exists|i: int|
            0 <= i < pts.len() && #[trigger] pts[i].x == x && pts[i].y == y {
            BARRIER
        } else {
            old_g.value_at(x, y)
        }
}

/// The five staggered blocks of barrier type 3, in drawing order.
pub open spec fn five_blocks(sx: int, sy: int) -> Seq<Coord> {
    let bsy = sx / 3;
    let x0a = sx / 4 - 1;
    let y0a = sy / 4 - bsy / 2;
    let x0b = x0a + sx / 2;
    let y0c = y0a + sy / 2;
    let x0e = sx / 2 - 1;
    let y0e = sy / 2 - bsy / 2;
    box_points(x0a, y0a, x0a + 2, y0a + bsy) + box_points(x0b, y0a, x0b + 2, y0a + bsy)
        + box_points(x0b, y0c, x0b + 2, y0c + bsy) + box_points(x0a, y0c, x0a + 2, y0c + bsy)
        + box_points(x0e, y0e, x0e + 2, y0e + bsy)
}

/// The barrier of type 2 (a vertical bar at a random place) drawn from
/// the state `s`.
pub open spec fn random_bar(sx: int, sy: int, s: RngState) -> Seq<Coord> {
    let x0 = wrap_i16(s.next_output() % ((sx - 39) as u32) + 20);
    let y0 = s.advance(1).next_output() % ((sy / 2 - 39) as u32) + 20;
    box_points(x0, y0, x0 + 1, y0 + sy / 2)
}

/// The barrier locations of the box-shaped types (1 to 4).
pub open spec fn box_barrier(barrier_type: u32, sx: int, sy: int, s: RngState) -> Seq<Coord> {
    if barrier_type == 1 {
        box_points(sx / 2, sy / 4, sx / 2 + 1, sy / 4 + sy / 2)
    } else if barrier_type == 2 {
        random_bar(sx, sy, s)
    } else if barrier_type == 3 {
        five_blocks(sx, sy)
    } else {
        let y0 = wrap_i16(sy / 2 + sy / 4);
        box_points(sx / 4, y0, sx / 4 + sx / 2, y0 + 2)
    }
}

/// The box from `(x0, y0)` to `(x1, y1)` within the range of `i16` lists
/// exactly its locations: each lies inside it, and each location inside
/// it is listed.
proof fn lemma_box_points_cover(x0: int, y0: int, x1: int, y1: int)
    requires
        i16::MIN <= x0,
        x1 <= i16::MAX,
        i16::MIN <= y0,
        y1 <= i16::MAX,
    ensures
        forall|i: int|
            0 <= i < box_points(x0, y0, x1, y1).len() ==> x0 <= (#[trigger] box_points(x0, y0, x1, y1)[i]).x
                <= x1 && y0 <= box_points(x0, y0, x1, y1)[i].y <= y1,
        forall|c: Coord| x0 <= c.x <= x1 && y0 <= c.y <= y1 ==> #[trigger] box_points(x0, y0, x1, y1).contains(c),
    decreases x1 - x0 + 1,
{
    if x1 >= x0 {
        lemma_box_points_cover(x0, y0, x1 - 1, y1);
        let a = box_points(x0, y0, x1 - 1, y1);
        let b = column_points(x1, y0, y1);
        let p = box_points(x0, y0, x1, y1);
        assert(p == a + b);
        assert forall|i: int| 0 <= i < p.len() implies x0 <= (#[trigger] p[i]).x <= x1 && y0 <= p[i].y <= y1 by {
            if i >= a.len() {
                assert(p[i] == b[i - a.len()]);
            }
        }
        assert forall|c: Coord| x0 <= c.x <= x1 && y0 <= c.y <= y1 implies #[trigger] p.contains(c) by {
            if c.x < x1 {
                assert(a.contains(c));
                let i = choose|i: int| 0 <= i < a.len() && a[i] == c;
                assert(p[i] == c);
            } else {
                let j = c.y - y0;
                assert(b[j] == c);
                assert(p[a.len() + j] == c);
            }
        }
    }
}

/// The bars of barrier types 1 and 4 on an arena whose coordinates fit in
/// `i16`: type 1 is the vertical bar of columns `size_x / 2` and
/// `size_x / 2 + 1` from row `size_y / 4` to row `size_y / 4 + size_y / 2`;
/// type 4 is the horizontal bar of columns `size_x / 4` to
/// `size_x / 4 + size_x / 2` and rows `size_y / 2 + size_y / 4` to
/// `size_y / 2 + size_y / 4 + 2`. Each lists every location of its bar and
/// no other.
pub proof fn lemma_bar_barriers(sx: int, sy: int, s: RngState)
    requires
        1 <= sx <= i16::MAX,
        1 <= sy <= i16::MAX,
    ensures
        forall|i: int|
            0 <= i < box_barrier(1, sx, sy, s).len() ==> sx / 2 <= (#[trigger] box_barrier(1, sx, sy, s)[i]).x
                <= sx / 2 + 1 && sy / 4 <= box_barrier(1, sx, sy, s)[i].y <= sy / 4 + sy / 2,
        forall|c: Coord|
            sx / 2 <= c.x <= sx / 2 + 1 && sy / 4 <= c.y <= sy / 4 + sy / 2 ==> #[trigger] box_barrier(
                1,
                sx,
                sy,
                s,
            ).contains(c),
        forall|i: int|
            0 <= i < box_barrier(4, sx, sy, s).len() ==> sx / 4 <= (#[trigger] box_barrier(4, sx, sy, s)[i]).x
                <= sx / 4 + sx / 2 && sy / 2 + sy / 4 <= box_barrier(4, sx, sy, s)[i].y <= sy / 2 + sy / 4 + 2,
        forall|c: Coord|
            sx / 4 <= c.x <= sx / 4 + sx / 2 && sy / 2 + sy / 4 <= c.y <= sy / 2 + sy / 4 + 2
                ==> #[trigger] box_barrier(4, sx, sy, s).contains(c),
{
    lemma_box_points_cover(sx / 2, sy / 4, sx / 2 + 1, sy / 4 + sy / 2);
    assert(wrap_i16(sy / 2 + sy / 4) == sy / 2 + sy / 4);
    lemma_box_points_cover(sx / 4, sy / 2 + sy / 4, sx / 4 + sx / 2, sy / 2 + sy / 4 + 2);
}

/// `p` lists the locations of the `w` by `h` box whose corner nearest the
/// origin is `(x0, y0)`, and no location outside it.
pub open spec fn lists_box(p: Seq<Coord>, x0: int, y0: int, w: int, h: int) -> bool {
    &&& forall|i: int| 0 <= i < p.len() ==> x0 <= (#[trigger] p[i]).x < x0 + w && y0 <= p[i].y < y0 + h
    &&& forall|c: Coord| x0 <= c.x < x0 + w && y0 <= c.y < y0 + h ==> #[trigger] p.contains(c)
}

/// The bar of barrier type 2 is two adjacent columns `x0` and `x0 + 1`
/// with `20 <= x0 <= size_x - 20`, from a row `y0` with
/// `20 <= y0 <= size_y / 2 - 20` down to row `y0 + size_y / 2`: it lists
/// every location of that box and no other.
pub proof fn lemma_random_bar_barrier(sx: int, sy: int, s: RngState)
    requires
        40 <= sx <= i16::MAX,
        80 <= sy <= i16::MAX,
    ensures
        ({
            let p = box_barrier(2, sx, sy, s);
            let h = sy / 2 + 1;
            exists|x0: int, y0: int|
                20 <= x0 <= sx - 20 && 20 <= y0 <= sy / 2 - 20 && #[trigger] lists_box(p, x0, y0, 2, h)
        }),
{
    let x0 = wrap_i16(s.next_output() % ((sx - 39) as u32) + 20);
    let y0 = s.advance(1).next_output() % ((sy / 2 - 39) as u32) + 20;
    assert(s.next_output() % ((sx - 39) as u32) < sx - 39);
    assert(x0 == s.next_output() % ((sx - 39) as u32) + 20);
    lemma_box_points_cover(x0, y0, x0 + 1, y0 + sy / 2);
    assert(box_barrier(2, sx, sy, s) == box_points(x0, y0, x0 + 1, y0 + sy / 2));
    assert(lists_box(box_barrier(2, sx, sy, s), x0, y0, 2, sy / 2 + 1));
    assert(s.advance(1).next_output() % ((sy / 2 - 39) as u32) < sy / 2 - 39);
    assert(20 <= x0 <= sx - 20);
    assert(20 <= y0 <= sy / 2 - 20);
}

/// A concatenation contains what either part contains.
proof fn lemma_concat_contains(a: Seq<Coord>, b: Seq<Coord>)
    ensures
        forall|c: Coord| #[trigger] (a + b).contains(c) <==> a.contains(c) || b.contains(c),
{
    assert forall|c: Coord| #[trigger] (a + b).contains(c) <==> a.contains(c) || b.contains(c) by {
        if (a + b).contains(c) {
            let i = choose|i: int| 0 <= i < (a + b).len() && (a + b)[i] == c;
            if i < a.len() {
                assert(a[i] == c);
            } else {
                assert(b[i - a.len()] == c);
            }
        }
        if a.contains(c) {
            let i = choose|i: int| 0 <= i < a.len() && a[i] == c;
            assert((a + b)[i] == c);
        }
        if b.contains(c) {
            let i = choose|i: int| 0 <= i < b.len() && b[i] == c;
            assert((a + b)[a.len() + i] == c);
        }
    }
}

/// `c` lies in the box from `(x0, y0)` to `(x1, y1)`, both included.
pub open spec fn in_box(c: Coord, x0: int, y0: int, x1: int, y1: int) -> bool {
    x0 <= c.x <= x1 && y0 <= c.y <= y1
}

/// A box lists exactly the locations inside it.
proof fn lemma_box_points_exact(x0: int, y0: int, x1: int, y1: int)
    requires
        i16::MIN <= x0,
        x1 <= i16::MAX,
        i16::MIN <= y0,
        y1 <= i16::MAX,
    ensures
        forall|c: Coord| #[trigger] box_points(x0, y0, x1, y1).contains(c) <==> in_box(c, x0, y0, x1, y1),
{
    lemma_box_points_cover(x0, y0, x1, y1);
    let p = box_points(x0, y0, x1, y1);
    assert forall|c: Coord| #[trigger] p.contains(c) implies in_box(c, x0, y0, x1, y1) by {
        let i = choose|i: int| 0 <= i < p.len() && p[i] == c;
        assert(x0 <= p[i].x <= x1 && y0 <= p[i].y <= y1);
    }
}

/// Barrier type 3 is five blocks three columns wide and `size_x / 3 + 1`
/// rows tall (with `b = size_x / 3`): at the corners of a centered
/// rectangle, columns from `size_x / 4 - 1` and from
/// `size_x / 4 - 1 + size_x / 2`, rows from `size_y / 4 - b / 2` and from
/// `size_y / 4 - b / 2 + size_y / 2`, and one in the middle, columns from
/// `size_x / 2 - 1` and rows from `size_y / 2 - b / 2`. A location is
/// listed exactly when it lies in one of them.
pub proof fn lemma_five_blocks_barrier(sx: int, sy: int, s: RngState)
    requires
        1 <= sx <= i16::MAX,
        1 <= sy <= i16::MAX,
    ensures
        forall|c: Coord|
            #[trigger] box_barrier(3, sx, sy, s).contains(c) <==> {
                let b = sx / 3;
                let (xl, xr) = (sx / 4 - 1, sx / 4 - 1 + sx / 2);
                let (yt, yb) = (sy / 4 - b / 2, sy / 4 - b / 2 + sy / 2);
                ||| in_box(c, xl, yt, xl + 2, yt + b)
                ||| in_box(c, xr, yt, xr + 2, yt + b)
                ||| in_box(c, xr, yb, xr + 2, yb + b)
                ||| in_box(c, xl, yb, xl + 2, yb + b)
                ||| in_box(c, sx / 2 - 1, sy / 2 - b / 2, sx / 2 + 1, sy / 2 - b / 2 + b)
            },
{
    let b = sx / 3;
    let xl = sx / 4 - 1;
    let xr = xl + sx / 2;
    let yt = sy / 4 - b / 2;
    let yb = yt + sy / 2;
    let xe = sx / 2 - 1;
    let ye = sy / 2 - b / 2;
    let p1 = box_points(xl, yt, xl + 2, yt + b);
    let p2 = box_points(xr, yt, xr + 2, yt + b);
    let p3 = box_points(xr, yb, xr + 2, yb + b);
    let p4 = box_points(xl, yb, xl + 2, yb + b);
    let p5 = box_points(xe, ye, xe + 2, ye + b);
    lemma_box_points_exact(xl, yt, xl + 2, yt + b);
    lemma_box_points_exact(xr, yt, xr + 2, yt + b);
    lemma_box_points_exact(xr, yb, xr + 2, yb + b);
    lemma_box_points_exact(xl, yb, xl + 2, yb + b);
    lemma_box_points_exact(xe, ye, xe + 2, ye + b);
    lemma_concat_contains(p1, p2);
    lemma_concat_contains(p1 + p2, p3);
    lemma_concat_contains(p1 + p2 + p3, p4);
    lemma_concat_contains(p1 + p2 + p3 + p4, p5);
    assert(box_barrier(3, sx, sy, s) == p1 + p2 + p3 + p4 + p5);
}

/// The first island center of barrier type 5, drawn from the state `s`.
pub open spec fn island_center(sx: int, sy: int, s: RngState) -> Coord {
    Coord {
        x: wrap_i16(s.next_output() % ((sx - 11) as u32) + 6) as i16,
        y: wrap_i16(s.advance(1).next_output() % ((sy - 11) as u32) + 6) as i16,
    }
}

/// The `n`-th spot (1 to 5) of barrier type 6.
pub open spec fn spot_center(sx: int, sy: int, n: int) -> Coord {
    Coord { x: wrap_i16(sx / 2) as i16, y: wrap_i16(n * (sy / 6)) as i16 }
}

/// The arena is large enough for the barrier type, and its coordinates
/// stay within `i16`.
pub open spec fn barrier_fits(barrier_type: u32, sx: int, sy: int) -> bool {
    &&& barrier_type <= 6
    &&& barrier_type == 1 ==> sx / 2 < 32767 && sy / 4 + sy / 2 <= 32767
    &&& barrier_type == 2 ==> {
        &&& sx >= 40
        &&& sy / 2 >= 40
        &&& sx - 20 < 32767
        &&& sy / 2 - 20 + sy / 2 <= 32767
    }
    &&& barrier_type == 3 ==> {
        &&& sx / 4 + sx / 2 + 1 <= 32767
        &&& sy / 4 - (sx / 3) / 2 + sy / 2 + sx / 3 <= 32767
        &&& sy / 2 - (sx / 3) / 2 + sx / 3 <= 32767
    }
    &&& barrier_type == 4 ==> sx / 4 + sx / 2 <= 32767 && wrap_i16(sy / 2 + sy / 4) + 2 <= 32767
    &&& barrier_type == 5 ==> sx >= 12 && sy >= 12
}

/// The barrier locations and centers that `create_barrier` records for
/// `barrier_type` on an `sx` by `sy` arena, drawing from the generator
/// state `s`.
pub open spec fn barrier_lists(barrier_type: u32, sx: int, sy: int, s: RngState, locs: Seq<Coord>, centers: Seq<Coord>) -> bool {
    if barrier_type == 0 {
        locs.len() == 0 && centers.len() == 0
    } else if barrier_type <= 4 {
        locs == box_barrier(barrier_type, sx, sy, s) && centers.len() == 0
    } else if barrier_type == 5 {
        let center = island_center(sx, sy, s);
        centers == seq![center] && neighborhood_list(locs, center, 3, 1, sx, sy)
    } else {
        &&& centers == Seq::new(5, |n: int| spot_center(sx, sy, n + 1))
        &&& exists|parts: Seq<Seq<Coord>>|
            {
                &&& parts.len() == 5
                &&& locs == concat_all(parts)
                &&& forall|n: int|
                    0 <= n < 5 ==> neighborhood_list(#[trigger] parts[n], spot_center(sx, sy, n + 1), 5, 1, sx, sy)
            }
    }
}

/// Records `c` and stores a barrier there.
fn mark_point(grid: &mut Grid, locs: &mut Vec<Coord>, c: Coord, Ghost(g0): Ghost<Grid>)
    requires
        barrier_marked(&g0, &*old(grid), old(locs)@),
    ensures
        barrier_marked(&g0, &*final(grid), final(locs)@),
        final(locs)@ == old(locs)@.push(c),
        final(grid).barrier_locations_view() == old(grid).barrier_locations_view(),
        final(grid).barrier_centers_view() == old(grid).barrier_centers_view(),
{
    let ghost g1 = *grid;
    let ghost p = locs@;
    grid.set(c, BARRIER);
    locs.push(c);
    proof {
        assert forall|x: int, y: int| #[trigger]
            grid.value_at(x, y) == if g0.contains(x, y) && exists|i: int|
                0 <= i < locs@.len() && #[trigger] locs@[i].x == x && locs@[i].y == y {
                BARRIER
            } else {
                g0.value_at(x, y)
            } by {
            assert(g1.value_at(x, y) == if g0.contains(x, y) && exists|i: int|
                0 <= i < p.len() && #[trigger] p[i].x == x && p[i].y == y {
                BARRIER
            } else {
                g0.value_at(x, y)
            });
            if x == c.x && y == c.y {
                assert(locs@[p.len() as int] == c);
            }
            if exists|i: int| 0 <= i < p.len() && #[trigger] p[i].x == x && p[i].y == y {
                let i = choose|i: int| 0 <= i < p.len() && #[trigger] p[i].x == x && p[i].y == y;
                assert(locs@[i] == p[i]);
            }
            if exists|i: int| 0 <= i < locs@.len() && #[trigger] locs@[i].x == x && locs@[i].y == y {
                let i = choose|i: int|
                    0 <= i < locs@.len() && #[trigger] locs@[i].x == x && locs@[i].y == y;
                if i < p.len() {
                    assert(p[i] == locs@[i]);
                }
            }
        }
    }
}

/// Draws the box from (x0, y0) to (x1, y1) (see `box_points`).
fn draw_box(grid: &mut Grid, locs: &mut Vec<Coord>, x0: i32, y0: i32, x1: i32, y1: i32, Ghost(g0): Ghost<Grid>)
    requires
        barrier_marked(&g0, &*old(grid), old(locs)@),
        i16::MIN <= x0,
        x1 <= i16::MAX,
        i16::MIN <= y0,
        y1 <= i16::MAX,
    ensures
        barrier_marked(&g0, &*final(grid), final(locs)@),
        final(locs)@ == old(locs)@ + box_points(x0 as int, y0 as int, x1 as int, y1 as int),
        final(grid).barrier_locations_view() == old(grid).barrier_locations_view(),
        final(grid).barrier_centers_view() == old(grid).barrier_centers_view(),
{
    let ghost base = locs@;
    if x1 < x0 {
        assert(locs@ == base + box_points(x0 as int, y0 as int, x1 as int, y1 as int));
        return;
    }
    let mut x = x0;
    assert(box_points(x0 as int, y0 as int, x0 - 1, y1 as int) == Seq::<Coord>::empty());
    assert(locs@ == base + box_points(x0 as int, y0 as int, x0 - 1, y1 as int));
    while x <= x1
        invariant
            x0 <= x <= x1 + 1,
            x1 <= i16::MAX,
            i16::MIN <= x0,
            i16::MIN <= y0,
            y1 <= i16::MAX,
            barrier_marked(&g0, &*grid, locs@),
            locs@ == base + box_points(x0 as int, y0 as int, x - 1, y1 as int),
            grid.barrier_locations_view() == old(grid).barrier_locations_view(),
            grid.barrier_centers_view() == old(grid).barrier_centers_view(),
        decreases x1 + 1 - x,
    {
        let ghost col_base = locs@;
        let mut y = y0;
        while y <= y1
            invariant
                x0 <= x <= x1,
                y0 <= y,
                y <= y1 + 1 || y == y0,
                x1 <= i16::MAX,
                i16::MIN <= x0,
                i16::MIN <= y0,
                y1 <= i16::MAX,
                barrier_marked(&g0, &*grid, locs@),
                locs@ == col_base + column_points(x as int, y0 as int, y - 1),
                grid.barrier_locations_view() == old(grid).barrier_locations_view(),
                grid.barrier_centers_view() == old(grid).barrier_centers_view(),
            decreases y1 + 1 - y,
        {
            mark_point(grid, locs, Coord { x: x as i16, y: y as i16 }, Ghost(g0));
            assert(column_points(x as int, y0 as int, y as int) == column_points(
                x as int,
                y0 as int,
                y - 1,
            ).push(Coord { x: x as i16, y: y as i16 }));
            y = y + 1;
        }
        assert(column_points(x as int, y0 as int, y - 1) == column_points(x as int, y0 as int, y1 as int));
        x = x + 1;
    }
}

/// Records every location of `pts` and stores barriers there.
fn mark_all(grid: &mut Grid, locs: &mut Vec<Coord>, pts: &Vec<Coord>, Ghost(g0): Ghost<Grid>)
    requires
        barrier_marked(&g0, &*old(grid), old(locs)@),
    ensures
        barrier_marked(&g0, &*final(grid), final(locs)@),
        final(locs)@ == old(locs)@ + pts@,
        final(grid).barrier_locations_view() == old(grid).barrier_locations_view(),
        final(grid).barrier_centers_view() == old(grid).barrier_centers_view(),
{
    let ghost base = locs@;
    let mut i: usize = 0;
    while i < pts.len()
        invariant
            i <= pts.len(),
            barrier_marked(&g0, &*grid, locs@),
            locs@ == base + pts@.take(i as int),
            grid.barrier_locations_view() == old(grid).barrier_locations_view(),
            grid.barrier_centers_view() == old(grid).barrier_centers_view(),
        decreases pts.len() - i,
    {
        mark_point(grid, locs, pts[i], Ghost(g0));
        assert(pts@.take(i + 1) == pts@.take(i as int).push(pts@[i as int]));
        i = i + 1;
    }
    assert(pts@.take(pts.len() as int) == pts@);
}


/// The concatenation of `parts`.
pub open spec fn concat_all(parts: Seq<Seq<Coord>>) -> Seq<Coord>
    decreases parts.len(),
{
    if parts.len() == 0 {
        Seq::empty()
    } else {
        concat_all(parts.drop_last()) + parts.last()
    }
}

/// The second island center and the generator state after drawing it:
/// while the candidate `c1` lies closer than 6 to `c0`, another is drawn
/// from `s`, for at most `u32::MAX` tries in all.
pub open spec fn settled_second(c0: Coord, c1: Coord, s: RngState, tries: u32, sx: int, sy: int) -> (Coord, RngState)
    decreases u32::MAX - tries,
{
    if distance(c0, c1) < 6 && tries < u32::MAX {
        settled_second(c0, island_center(sx, sy, s), s.advance(2), (tries + 1) as u32, sx, sy)
    } else {
        (c1, s)
    }
}

/// The third island center and the generator state after drawing it:
/// while the candidate `c2` lies closer than 6 to `c0` or `c1`, another
/// is drawn from `s`, for at most `u32::MAX` tries in all.
pub open spec fn settled_third(c0: Coord, c1: Coord, c2: Coord, s: RngState, tries: u32, sx: int, sy: int) -> (Coord, RngState)
    decreases u32::MAX - tries,
{
    if (distance(c0, c2) < 6 || distance(c1, c2) < 6) && tries < u32::MAX {
        settled_third(c0, c1, island_center(sx, sy, s), s.advance(2), (tries + 1) as u32, sx, sy)
    } else {
        (c2, s)
    }
}

/// The generator state after barrier type 5 has drawn its three island
/// centers from the state `s`.
pub open spec fn island_draws_end(sx: int, sy: int, s: RngState) -> RngState {
    let c0 = island_center(sx, sy, s);
    let second = settled_second(c0, island_center(sx, sy, s.advance(2)), s.advance(4), 1, sx, sy);
    let s1 = second.1;
    settled_third(c0, second.0, island_center(sx, sy, s1), s1.advance(2), 1, sx, sy).1
}

/// A random location for an island center (see `island_center`).
fn random_island_loc(rng: &mut RandomUintGenerator, sx: u16, sy: u16) -> (c: Coord)
    requires
        sx >= 12,
        sy >= 12,
    ensures
        c == island_center(sx as int, sy as int, old(rng)@),
        final(rng)@ == old(rng)@.advance(2),
{
    let ghost s = old(rng)@;
    let x = random_uint_range(rng, 6, sx as u32 - 6);
    let y = random_uint_range(rng, 6, sy as u32 - 6);
    proof {
        lemma_advance_next(s, 0);
        lemma_advance_next(s, 1);
    }
    Coord {
        x: crate::grid::wrap_u16_to_i16(x as u16),
        y: crate::grid::wrap_u16_to_i16(y as u16),
    }
}

/// Draws the barrier of `barrier_type` into the grid and records its
/// locations and centers: 0 none; 1 a vertical bar in the middle; 2 a
/// vertical bar at a random place; 3 five staggered blocks; 4 a horizontal
/// bar; 5 an island of radius 3 around a random center (two more centers
/// are drawn at distance at least 6, and not drawn); 6 five spots of
/// radius 5 along the middle column.
pub fn create_barrier(grid: &mut Grid, barrier_type: u32, params: &Params, rng: &mut RandomUintGenerator)
    requires
        old(grid).wf(),
        barrier_fits(barrier_type, params.size_x as int, params.size_y as int),
    ensures
        final(grid).wf(),
        final(grid).width() == old(grid).width(),
        final(grid).height() == old(grid).height(),
        barrier_type == 0 ==> {
            &&& forall|x: int, y: int| #[trigger]
                final(grid).value_at(x, y) == old(grid).value_at(x, y)
            &&& final(grid).barrier_locations_view().len() == 0
            &&& final(grid).barrier_centers_view().len() == 0
            &&& final(rng)@ == old(rng)@
        },
        barrier_type != 0 ==> barrier_marked(
            &*old(grid),
            &*final(grid),
            final(grid).barrier_locations_view(),
        ),
        1 <= barrier_type <= 4 ==> {
            &&& final(grid).barrier_locations_view() == box_barrier(
                barrier_type,
                params.size_x as int,
                params.size_y as int,
                old(rng)@,
            )
            &&& final(grid).barrier_centers_view().len() == 0
            &&& final(rng)@ == if barrier_type == 2 {
                old(rng)@.advance(2)
            } else {
                old(rng)@
            }
        },
        barrier_type == 5 ==> {
            let center = island_center(params.size_x as int, params.size_y as int, old(rng)@);
            &&& final(grid).barrier_centers_view() == seq![center]
            &&& neighborhood_list(
                final(grid).barrier_locations_view(),
                center,
                3,
                1,
                params.size_x as int,
                params.size_y as int,
            )
            &&& final(rng)@ == island_draws_end(params.size_x as int, params.size_y as int, old(rng)@)
        },
        barrier_type == 6 ==> {
            &&& final(grid).barrier_centers_view() == Seq::new(
                5,
                |n: int| spot_center(params.size_x as int, params.size_y as int, n + 1),
            )
            &&& exists|parts: Seq<Seq<Coord>>|
                {
                    &&& parts.len() == 5
                    &&& final(grid).barrier_locations_view() == concat_all(parts)
                    &&& forall|n: int|
                        0 <= n < 5 ==> neighborhood_list(
                            #[trigger] parts[n],
                            spot_center(params.size_x as int, params.size_y as int, n + 1),
                            5,
                            1,
                            params.size_x as int,
                            params.size_y as int,
                        )
                }
            &&& final(rng)@ == old(rng)@
        },
{
    let ghost s = old(rng)@;
    grid.set_barrier_locations(Vec::new());
    grid.set_barrier_centers(Vec::new());
    let ghost g0 = *old(grid);
    let mut barrier_locations: Vec<Coord> = Vec::new();
    let mut barrier_centers: Vec<Coord> = Vec::new();
    assert(barrier_marked(&g0, &*grid, barrier_locations@));
    let sx = params.size_x;
    let sy = params.size_y;
    if barrier_type == 0 {
        return;
    } else if barrier_type == 1 {
        let min_x = (sx / 2) as i32;
        let min_y = (sy / 4) as i32;
        draw_box(grid, &mut barrier_locations, min_x, min_y, min_x + 1, min_y + (sy / 2) as i32, Ghost(g0));
    } else if barrier_type == 2 {
        let vx = random_uint_range(rng, 20, sx as u32 - 20);
        let min_x = crate::grid::wrap_u16_to_i16(vx as u16) as i32;
        let min_y = random_uint_range(rng, 20, (sy / 2) as u32 - 20) as i32;
        proof {
            lemma_advance_next(s, 0);
            lemma_advance_next(s, 1);
        }
        draw_box(grid, &mut barrier_locations, min_x, min_y, min_x + 1, min_y + (sy / 2) as i32, Ghost(g0));
    } else if barrier_type == 3 {
        let bsy = (sx / 3) as i32;
        let x0a = (sx / 4) as i32 - 1;
        let y0a = (sy / 4) as i32 - bsy / 2;
        let x0b = x0a + (sx / 2) as i32;
        let y0c = y0a + (sy / 2) as i32;
        let x0e = (sx / 2) as i32 - 1;
        let y0e = (sy / 2) as i32 - bsy / 2;
        let ghost l0 = barrier_locations@;
        draw_box(grid, &mut barrier_locations, x0a, y0a, x0a + 2, y0a + bsy, Ghost(g0));
        draw_box(grid, &mut barrier_locations, x0b, y0a, x0b + 2, y0a + bsy, Ghost(g0));
        draw_box(grid, &mut barrier_locations, x0b, y0c, x0b + 2, y0c + bsy, Ghost(g0));
        draw_box(grid, &mut barrier_locations, x0a, y0c, x0a + 2, y0c + bsy, Ghost(g0));
        draw_box(grid, &mut barrier_locations, x0e, y0e, x0e + 2, y0e + bsy, Ghost(g0));
        assert(barrier_locations@ =~= five_blocks(sx as int, sy as int));
    } else if barrier_type == 4 {
        let min_x = (sx / 4) as i32;
        let max_x = min_x + (sx / 2) as i32;
        let min_y = crate::grid::wrap_u16_to_i16(sy / 2 + sy / 4) as i32;
        draw_box(grid, &mut barrier_locations, min_x, min_y, max_x, min_y + 2, Ghost(g0));
    } else if barrier_type == 5 {
        let center0 = random_island_loc(rng, sx, sy);
        let mut center1 = random_island_loc(rng, sx, sy);
        proof {
            lemma_advance_add(s, 2, 2);
        }
        let ghost second = settled_second(center0, center1, rng@, 1, sx as int, sy as int);
        let mut tries: u32 = 1;
        while distance_between(center0, center1) < 6 && tries < u32::MAX
            invariant
                sx == params.size_x,
                sy == params.size_y,
                sx >= 12,
                sy >= 12,
                settled_second(center0, center1, rng@, tries, sx as int, sy as int) == second,
            decreases u32::MAX - tries,
        {
            center1 = random_island_loc(rng, sx, sy);
            tries = tries + 1;
        }
        let mut center2 = random_island_loc(rng, sx, sy);
        let ghost third = settled_third(center0, center1, center2, rng@, 1, sx as int, sy as int);
        let mut tries2: u32 = 1;
        while (distance_between(center0, center2) < 6 || distance_between(center1, center2) < 6)
            && tries2 < u32::MAX
            invariant
                sx == params.size_x,
                sy == params.size_y,
                sx >= 12,
                sy >= 12,
                settled_third(center0, center1, center2, rng@, tries2, sx as int, sy as int) == third,
            decreases u32::MAX - tries2,
        {
            center2 = random_island_loc(rng, sx, sy);
            tries2 = tries2 + 1;
        }
        assert(rng@ == island_draws_end(sx as int, sy as int, s));
        barrier_centers.push(center0);
        let pts = visit_neighborhood(center0, 3, 1, sx, sy);
        mark_all(grid, &mut barrier_locations, &pts, Ghost(g0));
        assert(barrier_locations@ =~= pts@);
        assert(barrier_centers@ =~= seq![center0]);
    } else {
        let vertical_slice_size: u32 = sy as u32 / 6;
        let ghost mut parts: Seq<Seq<Coord>> = Seq::empty();
        let mut n: u32 = 1;
        while n <= 5
            invariant
                1 <= n <= 6,
                sx == params.size_x,
                sy == params.size_y,
                vertical_slice_size == sy / 6,
                barrier_marked(&g0, &*grid, barrier_locations@),
                parts.len() == n - 1,
                barrier_locations@ == concat_all(parts),
                forall|j: int|
                    0 <= j < n - 1 ==> neighborhood_list(
                        #[trigger] parts[j],
                        spot_center(sx as int, sy as int, j + 1),
                        5,
                        1,
                        sx as int,
                        sy as int,
                    ),
                barrier_centers@ == Seq::new(
                    (n - 1) as nat,
                    |j: int| spot_center(sx as int, sy as int, j + 1),
                ),
            decreases 6 - n,
        {
            assert(n * vertical_slice_size <= 54610) by (nonlinear_arith)
                requires
                    1 <= n <= 5,
                    vertical_slice_size == sy / 6,
                    sy <= 65535,
            ;
            let loc = Coord {
                x: crate::grid::wrap_u16_to_i16(sx / 2),
                y: crate::grid::wrap_u16_to_i16((n * vertical_slice_size) as u16),
            };
            assert(loc == spot_center(sx as int, sy as int, n as int));
            let pts = visit_neighborhood(loc, 5, 1, sx, sy);
            mark_all(grid, &mut barrier_locations, &pts, Ghost(g0));
            barrier_centers.push(loc);
            proof {
                let old_parts = parts;
                parts = parts.push(pts@);
                assert(parts.drop_last() == old_parts);
                assert(barrier_centers@ =~= Seq::new(
                    n as nat,
                    |j: int| spot_center(sx as int, sy as int, j + 1),
                ));
            }
            n = n + 1;
        }
        assert(barrier_centers@ =~= Seq::new(
            5,
            |n: int| spot_center(sx as int, sy as int, n + 1),
        ));
    }
    let ghost locs = barrier_locations@;
    let ghost gb = *grid;
    grid.set_barrier_locations(barrier_locations);
    grid.set_barrier_centers(barrier_centers);
    proof {
        assert forall|x: int, y: int| #[trigger] grid.value_at(x, y) == gb.value_at(x, y) by {}
    }
}

} // verus!
