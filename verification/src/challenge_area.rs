//! The marks that outline a challenge's survival area on a frame: straight
//! strokes, whose pixels are laid out here, and circles.
use vstd::prelude::*;

use crate::frame_pixels::{frame_height, frame_params_ok, frame_width};
use crate::params::Params;
use crate::simulator::{
    CHALLENGE_AGAINST_ANY_WALL, CHALLENGE_ALTRUISM, CHALLENGE_ALTRUISM_SACRIFICE, CHALLENGE_CENTER_SPARSE,
    CHALLENGE_CENTER_UNWEIGHTED, CHALLENGE_CENTER_WEIGHTED, CHALLENGE_CIRCLE, CHALLENGE_CORNER,
    CHALLENGE_CORNER_WEIGHTED, CHALLENGE_EAST_WEST_EIGHTHS, CHALLENGE_LEFT_EIGHTH,
    CHALLENGE_RADIOACTIVE_WALLS, CHALLENGE_RIGHT_HALF, CHALLENGE_RIGHT_QUARTER, CHALLENGE_TOUCH_ANY_WALL,
};

verus! {

/// A straight stroke three pixels thick: down a grid column, or along an
/// edge of the frame.
#[derive(Debug, Clone, Copy, PartialEq, Eq, Structural)]
pub enum Stroke {
    Column(u16),
    Top,
    Bottom,
    Left,
    Right,
}

/// A mark of a challenge area.
#[derive(Debug, Clone, Copy, PartialEq, Eq, Structural)]
pub enum AreaMark {
    Stroke(Stroke),
    /// A circle around the cell (x, y) with a radius of
    /// `radius_num / radius_den` cells, outlined, or also shaded towards
    /// its centre when `gradient` is set.
    Circle { x: u16, y: u16, radius_num: u32, radius_den: u32, gradient: bool },
}

/// A circle of radius `radius_num / radius_den` around (x, y).
pub open spec fn circle(x: int, y: int, radius_num: int, radius_den: int, gradient: bool) -> AreaMark {
    AreaMark::Circle {
        x: x as u16,
        y: y as u16,
        radius_num: radius_num as u32,
        radius_den: radius_den as u32,
        gradient,
    }
}

/// The marks outlining the area in which a challenge lets individuals
/// survive, in drawing order; none for the challenges without one.
pub open spec fn area_marks(p: Params) -> Seq<AreaMark> {
    let sx = p.size_x as int;
    let sy = p.size_y as int;
    let c = p.challenge;
    if c == CHALLENGE_CIRCLE || c == CHALLENGE_ALTRUISM {
        seq![circle(sx / 4, sy / 4, sx, 4, false)]
    } else if c == CHALLENGE_RIGHT_HALF {
        seq![AreaMark::Stroke(Stroke::Column((sx / 2) as u16))]
    } else if c == CHALLENGE_RIGHT_QUARTER {
        seq![AreaMark::Stroke(Stroke::Column((sx / 2 + sx / 4) as u16))]
    } else if c == CHALLENGE_LEFT_EIGHTH {
        seq![AreaMark::Stroke(Stroke::Column((sx / 8) as u16))]
    } else if c == CHALLENGE_CENTER_WEIGHTED {
        seq![circle(sx / 2, sy / 2, sx, 3, true)]
    } else if c == CHALLENGE_CENTER_UNWEIGHTED {
        seq![circle(sx / 2, sy / 2, sx, 3, false)]
    } else if c == CHALLENGE_CENTER_SPARSE {
        seq![circle(sx / 2, sy / 2, sx, 4, false)]
    } else if c == CHALLENGE_CORNER || c == CHALLENGE_CORNER_WEIGHTED {
        let den = if c == CHALLENGE_CORNER {
            8
        } else {
            4
        };
        seq![
            circle(0, 0, sx, den, false),
            circle(0, sy - 1, sx, den, false),
            circle(sx - 1, 0, sx, den, false),
            circle(sx - 1, sy - 1, sx, den, false),
        ]
    } else if c == CHALLENGE_RADIOACTIVE_WALLS || c == CHALLENGE_AGAINST_ANY_WALL || c
        == CHALLENGE_TOUCH_ANY_WALL {
        seq![
            AreaMark::Stroke(Stroke::Top),
            AreaMark::Stroke(Stroke::Bottom),
            AreaMark::Stroke(Stroke::Left),
            AreaMark::Stroke(Stroke::Right),
        ]
    } else if c == CHALLENGE_EAST_WEST_EIGHTHS {
        seq![
            AreaMark::Stroke(Stroke::Column((sx / 8) as u16)),
            AreaMark::Stroke(Stroke::Column((sx - sx / 8) as u16)),
        ]
    } else if c == CHALLENGE_ALTRUISM_SACRIFICE {
        seq![circle(sx - sx / 4, sy - sy / 4, sx, 4, false)]
    } else {
        Seq::empty()
    }
}

fn circle_mark(x: u16, y: u16, radius_num: u32, radius_den: u32, gradient: bool) -> (m: AreaMark)
    ensures
        m == circle(x as int, y as int, radius_num as int, radius_den as int, gradient),
{
    AreaMark::Circle { x, y, radius_num, radius_den, gradient }
}

/// The marks of the challenge's area (see `area_marks`).
pub fn challenge_area_marks(params: &Params) -> (marks: Vec<AreaMark>)
    requires
        params.size_x >= 1,
        params.size_y >= 1,
    ensures
        marks@ == area_marks(*params),
        forall|i: int|
            0 <= i < marks@.len() ==> (#[trigger] marks@[i] matches AreaMark::Stroke(Stroke::Column(x)) ==> x
                <= params.size_x),
{
    let sx = params.size_x;
    let sy = params.size_y;
    let sxw = sx as u32;
    let c = params.challenge;
    let mut marks: Vec<AreaMark> = Vec::new();
    if c == CHALLENGE_CIRCLE || c == CHALLENGE_ALTRUISM {
        marks.push(circle_mark(sx / 4, sy / 4, sxw, 4, false));
    } else if c == CHALLENGE_RIGHT_HALF {
        marks.push(AreaMark::Stroke(Stroke::Column(sx / 2)));
    } else if c == CHALLENGE_RIGHT_QUARTER {
        marks.push(AreaMark::Stroke(Stroke::Column(sx / 2 + sx / 4)));
    } else if c == CHALLENGE_LEFT_EIGHTH {
        marks.push(AreaMark::Stroke(Stroke::Column(sx / 8)));
    } else if c == CHALLENGE_CENTER_WEIGHTED {
        marks.push(circle_mark(sx / 2, sy / 2, sxw, 3, true));
    } else if c == CHALLENGE_CENTER_UNWEIGHTED {
        marks.push(circle_mark(sx / 2, sy / 2, sxw, 3, false));
    } else if c == CHALLENGE_CENTER_SPARSE {
        marks.push(circle_mark(sx / 2, sy / 2, sxw, 4, false));
    } else if c == CHALLENGE_CORNER || c == CHALLENGE_CORNER_WEIGHTED {
        let den: u32 = if c == CHALLENGE_CORNER {
            8
        } else {
            4
        };
        marks.push(circle_mark(0, 0, sxw, den, false));
        marks.push(circle_mark(0, sy - 1, sxw, den, false));
        marks.push(circle_mark(sx - 1, 0, sxw, den, false));
        marks.push(circle_mark(sx - 1, sy - 1, sxw, den, false));
    } else if c == CHALLENGE_RADIOACTIVE_WALLS || c == CHALLENGE_AGAINST_ANY_WALL || c
        == CHALLENGE_TOUCH_ANY_WALL {
        marks.push(AreaMark::Stroke(Stroke::Top));
        marks.push(AreaMark::Stroke(Stroke::Bottom));
        marks.push(AreaMark::Stroke(Stroke::Left));
        marks.push(AreaMark::Stroke(Stroke::Right));
    } else if c == CHALLENGE_EAST_WEST_EIGHTHS {
        marks.push(AreaMark::Stroke(Stroke::Column(sx / 8)));
        marks.push(AreaMark::Stroke(Stroke::Column(sx - sx / 8)));
    } else if c == CHALLENGE_ALTRUISM_SACRIFICE {
        marks.push(circle_mark(sx - sx / 4, sy - sy / 4, sxw, 4, false));
    }
    assert(marks@ =~= area_marks(*params));
    marks
}

/// The number of candidate pixels of a stroke: nine per grid column along
/// the top and bottom edges, nine per grid row otherwise.
pub open spec fn stroke_len(s: Stroke, p: Params) -> int {
    match s {
        Stroke::Top | Stroke::Bottom => p.size_x * 9,
        _ => p.size_y * 9,
    }
}

/// The `k`-th candidate pixel of a stroke, in drawing order. A column
/// stroke covers, for each grid row from the bottom one up, the 3×3 block
/// around the row's pixel in the column (rows of the block outer, columns
/// inner); an edge stroke covers, for each grid column (top, bottom) or
/// row (left, right) and each of the three pixels around it, the three
/// pixels nearest to that edge.
pub open spec fn stroke_candidate(s: Stroke, p: Params, k: int) -> (int, int) {
    let sc = p.display_scale as int;
    let a = k / 9;
    let d = (k / 3) % 3 - 1;
    let j = k % 3;
    let row = (p.size_y - 1 - a) * sc + d;
    match s {
        Stroke::Column(x) => (x * sc + j - 1, row),
        Stroke::Top => (a * sc + d, j),
        Stroke::Bottom => (a * sc + d, frame_height(p) - 3 + j),
        Stroke::Left => (j, row),
        Stroke::Right => (frame_width(p) - 3 + j, row),
    }
}

/// The pixel lies inside the frame.
pub open spec fn in_frame(p: Params) -> spec_fn((int, int)) -> bool {
    |q: (int, int)| 0 <= q.0 < frame_width(p) && 0 <= q.1 < frame_height(p)
}

/// The pixels a stroke covers, in drawing order: its candidates inside
/// the frame.
pub open spec fn stroke_pixels(s: Stroke, p: Params) -> Seq<(int, int)> {
    Seq::new(stroke_len(s, p) as nat, |k: int| stroke_candidate(s, p, k)).filter(in_frame(p))
}

/// The pixel list holds the pixels of `f`, in order.
pub open spec fn same_pixels(out: Seq<(u32, u32)>, f: Seq<(int, int)>) -> bool {
    &&& out.len() == f.len()
    &&& forall|i: int| #![trigger out[i]] 0 <= i < out.len() ==> out[i].0 == f[i].0 && out[i].1 == f[i].1
}

fn candidate(s: Stroke, params: &Params, k: u64) -> (q: (i64, i64))
    requires
        frame_params_ok(*params),
        k < stroke_len(s, *params),
        s matches Stroke::Column(x) ==> x <= params.size_x,
    ensures
        q.0 == stroke_candidate(s, *params, k as int).0,
        q.1 == stroke_candidate(s, *params, k as int).1,
{
    let sc = params.display_scale as i64;
    let a = (k / 9) as i64;
    let d = ((k / 3) % 3) as i64 - 1;
    let j = (k % 3) as i64;
    let w = params.size_x as i64 * sc;
    let h = params.size_y as i64 * sc;
    assert(params.size_x as i64 * sc <= 65535 * 0x7fff) by (nonlinear_arith)
        requires params.size_x <= 65535, sc <= 0x7fff, sc >= 0;
    assert(params.size_y as i64 * sc <= 65535 * 0x7fff) by (nonlinear_arith)
        requires params.size_y <= 65535, sc <= 0x7fff, sc >= 0;
    assert(a <= 65535) by {
        assert(k < 65535 * 9);
    }
    assert(a * sc <= 65535 * 0x7fff) by (nonlinear_arith)
        requires 0 <= a <= 65535, 0 <= sc <= 0x7fff;
    assert((params.size_y as i64 - 1 - a) * sc <= 65535 * 0x7fff) by (nonlinear_arith)
        requires -65535 <= params.size_y as i64 - 1 - a <= 65535, 0 <= sc <= 0x7fff;
    assert((params.size_y as i64 - 1 - a) * sc >= -65535 * 0x7fff) by (nonlinear_arith)
        requires -65535 <= params.size_y as i64 - 1 - a <= 65535, 0 <= sc <= 0x7fff;
    let row = (params.size_y as i64 - 1 - a) * sc + d;
    match s {
        Stroke::Column(x) => {
            assert(x as i64 * sc <= 65535 * 0x7fff) by (nonlinear_arith)
                requires x <= 65535, 0 <= sc <= 0x7fff;
            (x as i64 * sc + j - 1, row)
        },
        Stroke::Top => (a * sc + d, j),
        Stroke::Bottom => (a * sc + d, h - 3 + j),
        Stroke::Left => (j, row),
        Stroke::Right => (w - 3 + j, row),
    }
}

/// The pixels a stroke covers, in drawing order (see `stroke_pixels`).
pub fn stroke_pixel_list(s: Stroke, params: &Params) -> (out: Vec<(u32, u32)>)
    requires
        frame_params_ok(*params),
        s matches Stroke::Column(x) ==> x <= params.size_x,
    ensures
        same_pixels(out@, stroke_pixels(s, *params)),
{
    let n: u64 = match s {
        Stroke::Top | Stroke::Bottom => params.size_x as u64 * 9,
        _ => params.size_y as u64 * 9,
    };
    let w = params.size_x as i64 * params.display_scale as i64;
    let h = params.size_y as i64 * params.display_scale as i64;
    let ghost cands = Seq::new(stroke_len(s, *params) as nat, |k: int| stroke_candidate(s, *params, k));
    let ghost keep = in_frame(*params);
    let mut out: Vec<(u32, u32)> = Vec::new();
    let mut k: u64 = 0;
    while k < n
        invariant
            frame_params_ok(*params),
            s matches Stroke::Column(x) ==> x <= params.size_x,
            n == stroke_len(s, *params),
            k <= n,
            w == frame_width(*params),
            h == frame_height(*params),
            cands == Seq::new(stroke_len(s, *params) as nat, |k: int| stroke_candidate(s, *params, k)),
            keep == in_frame(*params),
            same_pixels(out@, cands.take(k as int).filter(keep)),
        decreases n - k,
    {
        let q = candidate(s, params, k);
        let ghost c = cands[k as int];
        let ghost f0 = cands.take(k as int).filter(keep);
        let ghost out0 = out@;
        proof {
            assert(cands.take(k + 1) =~= cands.take(k as int).push(c));
            cands.take(k as int).lemma_filter_push(c, keep);
            assert(c == stroke_candidate(s, *params, k as int));
        }
        if 0 <= q.0 && q.0 < w && 0 <= q.1 && q.1 < h {
            out.push((q.0 as u32, q.1 as u32));
            proof {
                assert(keep(c));
                let f = f0.push(c);
                assert forall|i: int| 0 <= i < out@.len() implies #[trigger] out@[i].0 == f[i].0 && out@[i].1 == f[i].1 by {
                    if i < out0.len() {
                        assert(out@[i] == out0[i]);
                        assert(f[i] == f0[i]);
                        assert(out0[i].0 == f0[i].0 && out0[i].1 == f0[i].1);
                    } else {
                        assert(i == out0.len());
                        assert(f[i] == c);
                        assert(out@[i] == (q.0 as u32, q.1 as u32));
                    }
                }
            }
        } else {
            proof {
                assert(!keep(c));
            }
        }
        k = k + 1;
    }
    assert(cands.take(n as int) =~= cands);
    out
}

} // verus!
