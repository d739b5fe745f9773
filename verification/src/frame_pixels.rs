//! The pixels of a video frame: a white image of `size_x * display_scale`
//! by `size_y * display_scale` pixels, row by row from the top, with the
//! barriers as grey squares and the individuals as discs of their
//! genetic colour. Grid row 0 is the bottom of the image.
use vstd::prelude::*;

use crate::basic_types::Coord;
use crate::grid::{lemma_cell_index, lemma_cell_index_injective};
use crate::image_frame::{color_rgb, genetic_color_to_rgb, ImageFrameData};
use crate::params::Params;

verus! {

/// The colour of the background, as `0xRRGGBB`.
pub const WHITE: u32 = 0xff_ff_ff;

/// The colour of barriers, as `0xRRGGBB`.
pub const BARRIER_GREY: u32 = 0x88_88_88;

/// The pixel at column `x` and row `y` of a row-major buffer `w` wide.
pub open spec fn pixel_at(buf: Seq<u32>, w: int, x: int, y: int) -> u32 {
    buf[y * w + x]
}

/// The frame width in pixels.
pub open spec fn frame_width(p: Params) -> int {
    p.size_x * p.display_scale
}

/// The frame height in pixels.
pub open spec fn frame_height(p: Params) -> int {
    p.size_y * p.display_scale
}

/// Frame sizes whose pixel arithmetic stays within `i16`, as the frame
/// layout requires, with a disc radius whose square fits an `i32`.
pub open spec fn frame_params_ok(p: Params) -> bool {
    &&& frame_width(p) <= 0x7fff
    &&& frame_height(p) <= 0x7fff
    &&& p.display_scale <= 0x7fff
    &&& p.agent_size <= 0x7fff
}

/// The square a barrier cell covers: its pixel square widened by half a
/// cell to the left and to the top, clipped to the frame.
pub open spec fn in_barrier_square(loc: Coord, p: Params, x: int, y: int) -> bool {
    let s = p.display_scale as int;
    let x1 = loc.x * s - s / 2;
    let y1 = (p.size_y - loc.y - 1) * s - s / 2;
    let x2 = (loc.x + 1) * s;
    let y2 = (p.size_y - loc.y) * s;
    &&& 0 <= x < frame_width(p)
    &&& 0 <= y < frame_height(p)
    &&& x1 <= x < x2
    &&& y1 <= y < y2
}

/// Some barrier among the first `k` covers the pixel.
pub open spec fn barrier_covers(locs: Seq<Coord>, p: Params, k: int, x: int, y: int) -> bool
    decreases k,
{
    if k <= 0 {
        false
    } else {
        barrier_covers(locs, p, k - 1, x, y) || in_barrier_square(locs[k - 1], p, x, y)
    }
}

/// The barrier cells lie in the grid.
pub open spec fn barriers_in_grid(locs: Seq<Coord>, p: Params) -> bool {
    forall|i: int|
        0 <= i < locs.len() ==> 0 <= #[trigger] locs[i].x < p.size_x && 0 <= locs[i].y < p.size_y
}

/// The background of a frame: grey where a barrier covers, white
/// elsewhere.
pub open spec fn background_pixel(data: ImageFrameData, p: Params, x: int, y: int) -> u32 {
    if barrier_covers(data.barrier_locs@, p, data.barrier_locs@.len() as int, x, y) {
        BARRIER_GREY
    } else {
        WHITE
    }
}

/// An individual at `loc` covers the pixels within `agent_size` of its
/// centre pixel.
pub open spec fn in_disc(loc: Coord, p: Params, x: int, y: int) -> bool {
    let cx = loc.x * p.display_scale;
    let cy = (p.size_y - 1 - loc.y) * p.display_scale;
    (x - cx) * (x - cx) + (y - cy) * (y - cy) <= p.agent_size * p.agent_size
}

/// A genetic colour's RGB colour as `0xRRGGBB`.
pub open spec fn color_word(c: u8) -> u32 {
    let rgb = color_rgb(c);
    (rgb.0 * 65536 + rgb.1 * 256 + rgb.2) as u32
}

/// The pixel after drawing the first `k` individuals over `base`: the
/// colour of the last of them whose disc covers it.
pub open spec fn agents_pixel(locs: Seq<Coord>, colors: Seq<u8>, p: Params, k: int, x: int, y: int, base: u32) -> u32
    decreases k,
{
    if k <= 0 {
        base
    } else if in_disc(locs[k - 1], p, x, y) {
        color_word(colors[k - 1])
    } else {
        agents_pixel(locs, colors, p, k - 1, x, y, base)
    }
}

/// Drawing individuals paints each one's centre pixel, at column
/// `x * display_scale` and row `(size_y - 1 - y) * display_scale` (rows
/// counted from the top), in its colour unless a later one covers it: the
/// last one drawn shows at its centre; a pixel farther than `agent_size`
/// from the centre of every individual drawn keeps the background.
pub proof fn lemma_agents_drawn_at_their_places(locs: Seq<Coord>, colors: Seq<u8>, p: Params, k: int, base: u32)
    requires
        0 <= k <= locs.len(),
        k <= colors.len(),
    ensures
        k > 0 ==> agents_pixel(
            locs,
            colors,
            p,
            k,
            locs[k - 1].x * p.display_scale,
            (p.size_y - 1 - locs[k - 1].y) * p.display_scale,
            base,
        ) == color_word(colors[k - 1]),
        forall|x: int, y: int|
            (forall|i: int|
                0 <= i < k ==> (x - (#[trigger] locs[i]).x * p.display_scale) * (x - locs[i].x * p.display_scale) + (y
                    - (p.size_y - 1 - locs[i].y) * p.display_scale) * (y - (p.size_y - 1 - locs[i].y)
                    * p.display_scale) > p.agent_size * p.agent_size) ==> #[trigger] agents_pixel(
                locs,
                colors,
                p,
                k,
                x,
                y,
                base,
            ) == base,
    decreases k,
{
    if k > 0 {
        lemma_agents_drawn_at_their_places(locs, colors, p, k - 1, base);
        let cx = locs[k - 1].x * p.display_scale;
        let cy = (p.size_y - 1 - locs[k - 1].y) * p.display_scale;
        assert((cx - cx) * (cx - cx) + (cy - cy) * (cy - cy) == 0) by (nonlinear_arith);
        assert(p.agent_size * p.agent_size >= 0) by (nonlinear_arith);
        assert(in_disc(locs[k - 1], p, cx, cy));
        assert forall|x: int, y: int|
            (forall|i: int|
                0 <= i < k ==> (x - (#[trigger] locs[i]).x * p.display_scale) * (x - locs[i].x * p.display_scale) + (y
                    - (p.size_y - 1 - locs[i].y) * p.display_scale) * (y - (p.size_y - 1 - locs[i].y)
                    * p.display_scale) > p.agent_size * p.agent_size) implies #[trigger] agents_pixel(
            locs,
            colors,
            p,
            k,
            x,
            y,
            base,
        ) == base by {
            assert(!in_disc(locs[k - 1], p, x, y));
            assert(agents_pixel(locs, colors, p, k - 1, x, y, base) == base);
        }
    }
}

/// Once some barrier among the first `j` covers a pixel, the first `k`
/// (for `k >= j`) do too.
proof fn lemma_barrier_covers_grows(locs: Seq<Coord>, p: Params, j: int, k: int, x: int, y: int)
    requires
        0 <= j <= k,
        barrier_covers(locs, p, j, x, y),
    ensures
        barrier_covers(locs, p, k, x, y),
    decreases k - j,
{
    if j < k {
        lemma_barrier_covers_grows(locs, p, j, k - 1, x, y);
    }
}

/// The background shows each barrier cell grey at the top-left pixel of
/// its cell, column `x * display_scale` and row
/// `(size_y - 1 - y) * display_scale`, when that pixel is in the frame.
pub proof fn lemma_barrier_cells_grey(data: ImageFrameData, p: Params, i: int)
    requires
        0 <= i < data.barrier_locs@.len(),
        p.display_scale > 0,
        0 <= data.barrier_locs@[i].x * p.display_scale < frame_width(p),
        0 <= (p.size_y - 1 - data.barrier_locs@[i].y) * p.display_scale < frame_height(p),
    ensures
        background_pixel(
            data,
            p,
            data.barrier_locs@[i].x * p.display_scale,
            (p.size_y - 1 - data.barrier_locs@[i].y) * p.display_scale,
        ) == BARRIER_GREY,
{
    let locs = data.barrier_locs@;
    let loc = locs[i];
    let sc = p.display_scale as int;
    let x = loc.x * sc;
    let y = (p.size_y - 1 - loc.y) * sc;
    assert((loc.x + 1) * sc == x + sc) by (nonlinear_arith)
        requires
            x == loc.x * sc,
    ;
    assert((p.size_y - loc.y) * sc == y + sc) by (nonlinear_arith)
        requires
            y == (p.size_y - 1 - loc.y) * sc,
    ;
    assert((p.size_y - loc.y - 1) * sc == y) by (nonlinear_arith)
        requires
            y == (p.size_y - 1 - loc.y) * sc,
    ;
    assert(in_barrier_square(loc, p, x, y));
    assert(barrier_covers(locs, p, i + 1, x, y));
    lemma_barrier_covers_grows(locs, p, i + 1, locs.len() as int, x, y);
}

/// Sets one pixel of a `w` by `h` buffer.
fn put_pixel(buf: &mut Vec<u32>, w: usize, h: usize, x: usize, y: usize, c: u32)
    requires
        old(buf)@.len() == w * h,
        x < w <= 0x7fff,
        y < h <= 0x7fff,
    ensures
        final(buf)@.len() == w * h,
        forall|x2: int, y2: int|
            0 <= x2 < w && 0 <= y2 < h ==> #[trigger] pixel_at(final(buf)@, w as int, x2, y2) == if x2
                == x && y2 == y {
                c
            } else {
                pixel_at(old(buf)@, w as int, x2, y2)
            },
{
    proof {
        lemma_cell_index(y as int, x as int, h as int, w as int);
        assert(h * w == w * h) by (nonlinear_arith);
        assert(h * w <= 0x7fff * 0x7fff) by (nonlinear_arith)
            requires
                w <= 0x7fff,
                h <= 0x7fff,
        ;
    }
    let i = y * w + x;
    buf.set(i, c);
    proof {
        assert forall|x2: int, y2: int| 0 <= x2 < w && 0 <= y2 < h implies #[trigger] pixel_at(
            buf@,
            w as int,
            x2,
            y2,
        ) == if x2 == x && y2 == y {
            c
        } else {
            pixel_at(old(buf)@, w as int, x2, y2)
        } by {
            lemma_cell_index(y2, x2, h as int, w as int);
            if y2 * w + x2 == i {
                lemma_cell_index_injective(y2, x2, y as int, x as int, w as int);
            }
        }
    }
}

/// The background of a frame (see `background_pixel`): white, with a grey
/// square for each barrier cell.
pub fn frame_background(data: &ImageFrameData, params: &Params) -> (buf: Vec<u32>)
    requires
        frame_params_ok(*params),
        barriers_in_grid(data.barrier_locs@, *params),
    ensures
        buf@.len() == frame_width(*params) * frame_height(*params),
        forall|x: int, y: int|
            0 <= x < frame_width(*params) && 0 <= y < frame_height(*params) ==> #[trigger] pixel_at(
                buf@,
                frame_width(*params),
                x,
                y,
            ) == background_pixel(*data, *params, x, y),
{
    let w: usize = params.size_x as usize * params.display_scale as usize;
    let h: usize = params.size_y as usize * params.display_scale as usize;
    assert(w * h <= 0x7fff * 0x7fff) by (nonlinear_arith)
        requires
            w <= 0x7fff,
            h <= 0x7fff,
    ;
    let mut buf: Vec<u32> = vec![WHITE; w * h];
    let ghost p = *params;
    let ghost locs = data.barrier_locs@;
    assert forall|x: int, y: int| 0 <= x < w && 0 <= y < h implies #[trigger] pixel_at(buf@, w as int, x, y)
        == WHITE by {
        lemma_cell_index(y, x, h as int, w as int);
    }
    let s: i64 = params.display_scale as i64;
    let sy: i64 = params.size_y as i64;
    let mut k: usize = 0;
    while k < data.barrier_locs.len()
        invariant
            k <= locs.len(),
            locs == data.barrier_locs@,
            p == *params,
            w == frame_width(p),
            h == frame_height(p),
            frame_params_ok(p),
            barriers_in_grid(locs, p),
            s == p.display_scale,
            sy == p.size_y,
            buf@.len() == w * h,
            forall|x: int, y: int|
                0 <= x < w && 0 <= y < h ==> #[trigger] pixel_at(buf@, w as int, x, y) == if barrier_covers(
                    locs,
                    p,
                    k as int,
                    x,
                    y,
                ) {
                    BARRIER_GREY
                } else {
                    WHITE
                },
        decreases locs.len() - k,
    {
        let loc = data.barrier_locs[k];
        assert(0 <= loc.x < p.size_x && 0 <= loc.y < p.size_y);
        assert(0 <= loc.x * s <= w && (loc.x + 1) * s <= w) by (nonlinear_arith)
            requires
                0 <= loc.x < p.size_x,
                w == p.size_x * s,
                0 <= s,
        ;
        assert(0 <= (sy - loc.y - 1) * s <= h && (sy - loc.y) * s <= h) by (nonlinear_arith)
            requires
                0 <= loc.y < sy,
                h == sy * s,
                0 <= s,
        ;
        let x1: i64 = loc.x as i64 * s - s / 2;
        let x1: usize = if x1 < 0 {
            0
        } else {
            x1 as usize
        };
        let x2: i64 = (loc.x as i64 + 1) * s;
        let x2: usize = if x2 > w as i64 {
            w
        } else {
            x2 as usize
        };
        let y1: i64 = (sy - loc.y as i64 - 1) * s - s / 2;
        let y1: usize = if y1 < 0 {
            0
        } else {
            y1 as usize
        };
        let y2: i64 = (sy - loc.y as i64) * s;
        let y2: usize = if y2 > h as i64 {
            h
        } else {
            y2 as usize
        };
        let mut y = y1;
        while y < y2
            invariant
                y1 <= y,
                y1 >= y2 || y <= y2,
                y2 <= h,
                x2 <= w,
                k < locs.len(),
                loc == locs[k as int],
                x1 == (if loc.x * p.display_scale - p.display_scale / 2 < 0 { 0 } else { loc.x
                    * p.display_scale - p.display_scale / 2 }),
                x2 == (loc.x + 1) * p.display_scale,
                y1 == (if (p.size_y - loc.y - 1) * p.display_scale - p.display_scale / 2 < 0 { 0 } else { (p.size_y - loc.y - 1) * p.display_scale - p.display_scale / 2 }),
                y2 == (p.size_y - loc.y) * p.display_scale,
                w == frame_width(p),
                h == frame_height(p),
                w <= 0x7fff,
                h <= 0x7fff,
                buf@.len() == w * h,
                forall|x: int, yy: int|
                    0 <= x < w && 0 <= yy < h ==> #[trigger] pixel_at(buf@, w as int, x, yy) == if barrier_covers(
                        locs,
                        p,
                        k as int,
                        x,
                        yy,
                    ) || (in_barrier_square(loc, p, x, yy) && yy < y) {
                        BARRIER_GREY
                    } else {
                        WHITE
                    },
            decreases y2 - y,
        {
            let mut x = x1;
            while x < x2
                invariant
                    x1 <= x,
                    x1 >= x2 || x <= x2,
                    y1 <= y < y2 <= h,
                    x2 <= w,
                    k < locs.len(),
                    loc == locs[k as int],
                    x1 == (if loc.x * p.display_scale - p.display_scale / 2 < 0 { 0 } else { loc.x
                        * p.display_scale - p.display_scale / 2 }),
                    x2 == (loc.x + 1) * p.display_scale,
                    y1 == (if (p.size_y - loc.y - 1) * p.display_scale - p.display_scale / 2 < 0 { 0 } else { (p.size_y - loc.y - 1) * p.display_scale - p.display_scale / 2 }),
                    y2 == (p.size_y - loc.y) * p.display_scale,
                    w == frame_width(p),
                    h == frame_height(p),
                    w <= 0x7fff,
                    h <= 0x7fff,
                    buf@.len() == w * h,
                    forall|xx: int, yy: int|
                        0 <= xx < w && 0 <= yy < h ==> #[trigger] pixel_at(buf@, w as int, xx, yy)
                            == if barrier_covers(locs, p, k as int, xx, yy) || (in_barrier_square(
                            loc,
                            p,
                            xx,
                            yy,
                        ) && (yy < y || (yy == y && xx < x))) {
                            BARRIER_GREY
                        } else {
                            WHITE
                        },
                decreases x2 - x,
            {
                put_pixel(&mut buf, w, h, x, y, BARRIER_GREY);
                x = x + 1;
            }
            y = y + 1;
        }
        k = k + 1;
    }
    buf
}

/// Draws the individuals over a frame (see `agents_pixel`): each of the
/// first `min(|indiv_locs|, |indiv_colors|)` as a disc of its genetic
/// colour, later ones over earlier ones.
pub fn draw_agents(buf: &mut Vec<u32>, data: &ImageFrameData, params: &Params)
    requires
        frame_params_ok(*params),
        old(buf)@.len() == frame_width(*params) * frame_height(*params),
    ensures
        final(buf)@.len() == old(buf)@.len(),
        forall|x: int, y: int|
            0 <= x < frame_width(*params) && 0 <= y < frame_height(*params) ==> #[trigger] pixel_at(
                final(buf)@,
                frame_width(*params),
                x,
                y,
            ) == agents_pixel(
                data.indiv_locs@,
                data.indiv_colors@,
                *params,
                if data.indiv_locs@.len() <= data.indiv_colors@.len() {
                    data.indiv_locs@.len() as int
                } else {
                    data.indiv_colors@.len() as int
                },
                x,
                y,
                pixel_at(old(buf)@, frame_width(*params), x, y),
            ),
{
    let w: usize = params.size_x as usize * params.display_scale as usize;
    let h: usize = params.size_y as usize * params.display_scale as usize;
    let ghost p = *params;
    let ghost orig = buf@;
    let ghost locs = data.indiv_locs@;
    let ghost colors = data.indiv_colors@;
    let n: usize = if data.indiv_locs.len() <= data.indiv_colors.len() {
        data.indiv_locs.len()
    } else {
        data.indiv_colors.len()
    };
    let s: i64 = params.display_scale as i64;
    let r: i64 = params.agent_size as i64;
    let mut k: usize = 0;
    while k < n
        invariant
            k <= n <= locs.len(),
            n <= colors.len(),
            locs == data.indiv_locs@,
            colors == data.indiv_colors@,
            p == *params,
            w == frame_width(p),
            h == frame_height(p),
            frame_params_ok(p),
            s == p.display_scale,
            r == p.agent_size,
            buf@.len() == w * h,
            orig.len() == w * h,
            forall|x: int, y: int|
                0 <= x < w && 0 <= y < h ==> #[trigger] pixel_at(buf@, w as int, x, y) == agents_pixel(
                    locs,
                    colors,
                    p,
                    k as int,
                    x,
                    y,
                    pixel_at(orig, w as int, x, y),
                ),
        decreases n - k,
    {
        let loc = data.indiv_locs[k];
        let (cr, cg, cb) = genetic_color_to_rgb(data.indiv_colors[k]);
        let c: u32 = cr as u32 * 65536 + cg as u32 * 256 + cb as u32;
        assert(c == color_word(colors[k as int]));
        assert(-0x8000 * 0x7fff <= loc.x * s <= 0x7fff * 0x7fff) by (nonlinear_arith)
            requires
                -0x8000 <= loc.x <= 0x7fff,
                0 <= s <= 0x7fff,
        ;
        assert(-0x20000 * 0x7fff <= (p.size_y - 1 - loc.y) * s <= 0x20000 * 0x7fff) by (nonlinear_arith)
            requires
                -0x8000 <= loc.y <= 0x7fff,
                0 <= p.size_y <= 0xffff,
                0 <= s <= 0x7fff,
        ;
        let cx: i64 = loc.x as i64 * s;
        let cy: i64 = (params.size_y as i64 - 1 - loc.y as i64) * s;
        let lo_y: i64 = if cy - r < 0 {
            0
        } else {
            cy - r
        };
        let hi_y: i64 = if cy + r + 1 > h as i64 {
            h as i64
        } else {
            cy + r + 1
        };
        let lo_x: i64 = if cx - r < 0 {
            0
        } else {
            cx - r
        };
        let hi_x: i64 = if cx + r + 1 > w as i64 {
            w as i64
        } else {
            cx + r + 1
        };
        proof {
            assert forall|x: int, y: int| 0 <= x < w && 0 <= y < h && in_disc(loc, p, x, y) implies lo_y
                <= y < hi_y && lo_x <= x < hi_x by {
                lemma_disc_box(x - cx, y - cy, r as int);
            }
        }
        let mut y: i64 = lo_y;
        while y < hi_y
            invariant
                lo_y <= y,
                lo_y >= hi_y || y <= hi_y,
                0 <= lo_y,
                hi_y <= h,
                0 <= lo_x,
                hi_x <= w,
                k < n <= locs.len(),
                n <= colors.len(),
                loc == locs[k as int],
                c == color_word(colors[k as int]),
                cx == loc.x * p.display_scale,
                cy == (p.size_y - 1 - loc.y) * p.display_scale,
                r == p.agent_size,
                -0x8000 * 0x7fff <= cx <= 0x7fff * 0x7fff,
                -0x20000 * 0x7fff <= cy <= 0x20000 * 0x7fff,
                0 <= r <= 0x7fff,
                w == frame_width(p),
                h == frame_height(p),
                w <= 0x7fff,
                h <= 0x7fff,
                buf@.len() == w * h,
                orig.len() == w * h,
                forall|x: int, yy: int|
                    0 <= x < w && 0 <= yy < h && in_disc(loc, p, x, yy) ==> lo_y <= yy < hi_y && lo_x
                        <= x < hi_x,
                forall|x: int, yy: int|
                    0 <= x < w && 0 <= yy < h ==> #[trigger] pixel_at(buf@, w as int, x, yy) == if in_disc(
                        loc,
                        p,
                        x,
                        yy,
                    ) && yy < y {
                        c
                    } else {
                        agents_pixel(locs, colors, p, k as int, x, yy, pixel_at(orig, w as int, x, yy))
                    },
            decreases hi_y - y,
        {
            let mut x: i64 = lo_x;
            while x < hi_x
                invariant
                    lo_x <= x,
                    lo_x >= hi_x || x <= hi_x,
                    0 <= lo_y <= y < hi_y <= h,
                    0 <= lo_x,
                    hi_x <= w,
                    k < n <= locs.len(),
                    n <= colors.len(),
                    loc == locs[k as int],
                    c == color_word(colors[k as int]),
                    cx == loc.x * p.display_scale,
                    cy == (p.size_y - 1 - loc.y) * p.display_scale,
                    r == p.agent_size,
                    -0x8000 * 0x7fff <= cx <= 0x7fff * 0x7fff,
                    -0x20000 * 0x7fff <= cy <= 0x20000 * 0x7fff,
                    0 <= r <= 0x7fff,
                    w == frame_width(p),
                    h == frame_height(p),
                    w <= 0x7fff,
                    h <= 0x7fff,
                    buf@.len() == w * h,
                    orig.len() == w * h,
                    forall|xx: int, yy: int|
                        0 <= xx < w && 0 <= yy < h ==> #[trigger] pixel_at(buf@, w as int, xx, yy)
                            == if in_disc(loc, p, xx, yy) && (yy < y || (yy == y && xx < x)) {
                            c
                        } else {
                            agents_pixel(locs, colors, p, k as int, xx, yy, pixel_at(orig, w as int, xx, yy))
                        },
                decreases hi_x - x,
            {
                let dx: i64 = x - cx;
                let dy: i64 = y - cy;
                assert(0 <= dx * dx <= 0x4_0000_0000 * 0x4_0000_0000) by (nonlinear_arith)
                    requires
                        -0x4_0000_0000 <= dx <= 0x4_0000_0000,
                ;
                assert(0 <= dy * dy <= 0x4_0000_0000 * 0x4_0000_0000) by (nonlinear_arith)
                    requires
                        -0x4_0000_0000 <= dy <= 0x4_0000_0000,
                ;
                assert(0 <= r * r <= 0x7fff * 0x7fff) by (nonlinear_arith)
                    requires
                        0 <= r <= 0x7fff,
                ;
                if (dx as i128) * (dx as i128) + (dy as i128) * (dy as i128) <= (r as i128) * (r as i128) {
                    put_pixel(buf, w, h, x as usize, y as usize, c);
                } else {
                    assert(!in_disc(loc, p, x as int, y as int));
                }
                x = x + 1;
            }
            y = y + 1;
        }
        k = k + 1;
    }
}

/// A point of a disc of radius `r` lies within `r` of its centre on both
/// axes.
proof fn lemma_disc_box(dx: int, dy: int, r: int)
    requires
        0 <= r,
        dx * dx + dy * dy <= r * r,
    ensures
        -r <= dx <= r,
        -r <= dy <= r,
{
    assert(dx * dx <= r * r) by (nonlinear_arith)
        requires
            dx * dx + dy * dy <= r * r,
    ;
    assert(dy * dy <= r * r) by (nonlinear_arith)
        requires
            dx * dx + dy * dy <= r * r,
    ;
    assert(-r <= dx <= r) by (nonlinear_arith)
        requires
            dx * dx <= r * r,
            0 <= r,
    ;
    assert(-r <= dy <= r) by (nonlinear_arith)
        requires
            dy * dy <= r * r,
            0 <= r,
    ;
}

} // verus!
