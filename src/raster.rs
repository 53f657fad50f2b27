//! Screen space: the perspective divide, the viewport map, and the
//! pixel-centre rules of the rasterizer.
//!
//! Screen positions are fixed-point with `SUBPIXEL` steps per pixel; `y`
//! grows downward. Pixel `(px, py)` has its centre at
//! `(SUBPIXEL * px + SUBPIXEL / 2, SUBPIXEL * py + SUBPIXEL / 2)`.
use vstd::prelude::*;
use crate::vertex::{
    in_wide, lemma_floor_bounds, lemma_scaled_between, lerp_down, lerp_floor, valid_weight,
    ColorVertex, Vec4, COORD_MAX,
};

verus! {

/// Sub-pixel steps per pixel.
pub const SUBPIXEL: i64 = 16;

/// Half a pixel, in sub-pixel steps.
pub const HALF_PIXEL: i64 = 8;

/// Depth `z / w == 1` in fixed point.
pub const DEPTH_ONE: i64 = 65536;

/// `1 / w == 1` in fixed point.
pub const INV_W_ONE: i64 = 4294967296;

/// A vertex after the perspective divide and the viewport map.
///
/// `depth` is `z / w`; `inv_w` is `1 / w`; the colour channels are stored
/// multiplied by `1 / w`, so that interpolating them linearly in screen
/// space and dividing by the interpolated `inv_w` is perspective-correct.
#[derive(Clone, Copy, Debug, PartialEq, Eq, Structural)]
pub struct ScreenVertex {
    pub x: i64,
    pub y: i64,
    pub depth: i64,
    pub inv_w: i64,
    pub color: Vec4,
}

impl ScreenVertex {
    pub open spec fn bounded(self) -> bool {
        &&& in_wide(self.x as int) && in_wide(self.y as int) && in_wide(self.depth as int)
        &&& in_wide(self.inv_w as int) && self.inv_w >= 1
        &&& in_wide(self.color.x as int) && in_wide(self.color.y as int) && in_wide(
            self.color.z as int,
        ) && in_wide(self.color.w as int)
    }
}

/// `k / d` rounded down, for `d > 0`: the spec's `/` on integers.
pub open spec fn scaled(k: int, d: int) -> int {
    k / d
}

/// The viewport map of a clip-space vertex with `w > 0` onto a
/// `width x height` screen:
/// `x_s = (x / w + 1) * width / 2`, `y_s = (1 - y / w) * height / 2`,
/// each rounded down to a sub-pixel step.
pub open spec fn screen_of(v: ColorVertex, width: int, height: int) -> ScreenVertex {
    let p = v.position;
    ScreenVertex {
        x: scaled((p.x + p.w) * width * SUBPIXEL, 2 * p.w) as i64,
        y: scaled((p.w - p.y) * height * SUBPIXEL, 2 * p.w) as i64,
        depth: scaled(p.z * DEPTH_ONE, p.w as int) as i64,
        inv_w: scaled(INV_W_ONE as int, p.w as int) as i64,
        color: Vec4 {
            x: scaled(v.color.x * INV_W_ONE, p.w as int) as i64,
            y: scaled(v.color.y * INV_W_ONE, p.w as int) as i64,
            z: scaled(v.color.z * INV_W_ONE, p.w as int) as i64,
            w: scaled(v.color.w * INV_W_ONE, p.w as int) as i64,
        },
    }
}

/// Division by `d >= 1` does not grow a value.
proof fn lemma_scaled_shrinks(k: int, d: int)
    requires
        d >= 1,
    ensures
        k >= 0 ==> 0 <= scaled(k, d) <= k,
        k < 0 ==> k <= scaled(k, d) <= 0,
{
    lemma_scaled_between(k, 1, d);
    assert(k * 1 == k);
}

/// `k / d` rounded down, for `d >= 1` and `|k| <= 2^124`.
fn div_down(k: i128, d: i128) -> (q: i128)
    requires
        1 <= d,
        -0x1000_0000_0000_0000_0000_0000_0000_0000 <= k <= 0x1000_0000_0000_0000_0000_0000_0000_0000,
    ensures
        q == scaled(k as int, d as int),
        k >= 0 ==> 0 <= q <= k,
        k < 0 ==> k <= q <= 0,
{
    proof {
        lemma_scaled_shrinks(k as int, d as int);
    }
    match k.checked_div_euclid(d) {
        Some(q) => q,
        None => 0,
    }
}

/// Maps a clip-space vertex with `w > 0` onto a `width x height` screen.
pub fn to_screen_coords(v: &ColorVertex, width: u32, height: u32) -> (r: ScreenVertex)
    requires
        v.bounded(),
        v.position.w > 0,
    ensures
        r == screen_of(*v, width as int, height as int),
        r.bounded(),
{
    let p = v.position;
    let w = p.w as i128;
    let sub = SUBPIXEL as i128;
    proof {
        assert(0 <= (p.x + p.w) * width <= 0x2000000 * 0x1_0000_0000 || -0x2000000 * 0x1_0000_0000
            <= (p.x + p.w) * width <= 0) by (nonlinear_arith)
            requires
                -0x2000000 <= p.x + p.w <= 0x2000000,
                0 <= width <= 0xffff_ffff,
        ;
        assert(-0x2000000 * 0x1_0000_0000 <= (p.w - p.y) * height <= 0x2000000 * 0x1_0000_0000)
            by (nonlinear_arith)
            requires
                -0x2000000 <= p.w - p.y <= 0x2000000,
                0 <= height <= 0xffff_ffff,
        ;
        assert(-COORD_MAX * DEPTH_ONE <= p.z * DEPTH_ONE <= COORD_MAX * DEPTH_ONE) by (nonlinear_arith)
            requires
                -COORD_MAX <= p.z <= COORD_MAX,
        ;
        assert(forall|c: int|
            -COORD_MAX <= c <= COORD_MAX ==> -COORD_MAX * INV_W_ONE <= #[trigger] (c * INV_W_ONE)
                <= COORD_MAX * INV_W_ONE) by (nonlinear_arith);
        assert(((p.x + p.w) * width) * SUBPIXEL == (p.x + p.w) * width * SUBPIXEL) by (nonlinear_arith);
        assert(((p.w - p.y) * height) * SUBPIXEL == (p.w - p.y) * height * SUBPIXEL) by (nonlinear_arith);
    }
    let x = div_down((p.x as i128 + w) * (width as i128) * sub, 2 * w);
    let y = div_down((w - p.y as i128) * (height as i128) * sub, 2 * w);
    let depth = div_down(p.z as i128 * DEPTH_ONE as i128, w);
    let inv_w = div_down(INV_W_ONE as i128, w);
    proof {
        lemma_floor_bounds(INV_W_ONE as int, w as int);
        assert(w * 256 <= INV_W_ONE);
        assert(inv_w >= 1) by (nonlinear_arith)
            requires
                w * inv_w <= INV_W_ONE < w * inv_w + w,
                1 <= w <= COORD_MAX,
                w * 256 <= INV_W_ONE,
        ;
    }
    let one = INV_W_ONE as i128;
    let cx = div_down(v.color.x as i128 * one, w);
    let cy = div_down(v.color.y as i128 * one, w);
    let cz = div_down(v.color.z as i128 * one, w);
    let cw = div_down(v.color.w as i128 * one, w);
    ScreenVertex {
        x: x as i64,
        y: y as i64,
        depth: depth as i64,
        inv_w: inv_w as i64,
        color: Vec4 { x: cx as i64, y: cy as i64, z: cz as i64, w: cw as i64 },
    }
}

/// The affine combination `(1 - t) * a + t * b` of two screen vertices,
/// `t = n / d`, every field rounded down.
pub open spec fn screen_blend(a: ScreenVertex, b: ScreenVertex, n: int, d: int) -> ScreenVertex {
    ScreenVertex {
        x: lerp_floor(a.x as int, b.x as int, n, d) as i64,
        y: lerp_floor(a.y as int, b.y as int, n, d) as i64,
        depth: lerp_floor(a.depth as int, b.depth as int, n, d) as i64,
        inv_w: lerp_floor(a.inv_w as int, b.inv_w as int, n, d) as i64,
        color: Vec4 {
            x: lerp_floor(a.color.x as int, b.color.x as int, n, d) as i64,
            y: lerp_floor(a.color.y as int, b.color.y as int, n, d) as i64,
            z: lerp_floor(a.color.z as int, b.color.z as int, n, d) as i64,
            w: lerp_floor(a.color.w as int, b.color.w as int, n, d) as i64,
        },
    }
}

pub open spec fn between(v: int, a: int, b: int) -> bool {
    (a <= v <= b) || (b <= v <= a)
}

/// `(1 - t) * a + t * b` with `t = n / d`.
pub fn interpolate_screen(a: &ScreenVertex, b: &ScreenVertex, n: i64, d: i64) -> (r: ScreenVertex)
    requires
        a.bounded(),
        b.bounded(),
        valid_weight(n as int, d as int),
    ensures
        r == screen_blend(*a, *b, n as int, d as int),
        r.bounded(),
        between(r.x as int, a.x as int, b.x as int),
        between(r.y as int, a.y as int, b.y as int),
{
    ScreenVertex {
        x: lerp_down(a.x, b.x, n, d),
        y: lerp_down(a.y, b.y, n, d),
        depth: lerp_down(a.depth, b.depth, n, d),
        inv_w: lerp_down(a.inv_w, b.inv_w, n, d),
        color: Vec4 {
            x: lerp_down(a.color.x, b.color.x, n, d),
            y: lerp_down(a.color.y, b.color.y, n, d),
            z: lerp_down(a.color.z, b.color.z, n, d),
            w: lerp_down(a.color.w, b.color.w, n, d),
        },
    }
}

/// The first pixel whose centre is at or after sub-pixel position `a`:
/// `ceil(a / SUBPIXEL - 1/2)`.
pub open spec fn first_pixel(a: int) -> int {
    -((HALF_PIXEL - a) / (SUBPIXEL as int))
}

pub proof fn lemma_first_pixel(a: int)
    ensures
        SUBPIXEL * first_pixel(a) + HALF_PIXEL >= a,
        SUBPIXEL * (first_pixel(a) - 1) + HALF_PIXEL < a,
{
    lemma_floor_bounds(HALF_PIXEL - a, SUBPIXEL as int);
}

/// `ceil(a / SUBPIXEL - 1/2)`: pixels `p` with `p >= first_pixel_of(a)` are
/// those whose centre is not before `a`.
pub fn first_pixel_of(a: i64) -> (r: i64)
    requires
        in_wide(a as int),
    ensures
        r == first_pixel(a as int),
        SUBPIXEL * r + HALF_PIXEL >= a,
        SUBPIXEL * (r - 1) + HALF_PIXEL < a,
{
    proof {
        lemma_first_pixel(a as int);
        lemma_scaled_shrinks(HALF_PIXEL as int - a as int, SUBPIXEL as int);
    }
    let q = div_down(HALF_PIXEL as i128 - a as i128, SUBPIXEL as i128);
    (-q) as i64
}

/// The pixel range `[start, end)` whose centres lie in `[a, b)`, cut to
/// `[0, limit)`.
pub open spec fn pixel_span(a: int, b: int, limit: int) -> (int, int) {
    let s = first_pixel(a);
    let e = first_pixel(b);
    (if s < 0 {
        0
    } else {
        s
    }, if e > limit {
        limit
    } else {
        e
    })
}

pub fn span_of(a: i64, b: i64, limit: u32) -> (r: (i64, i64))
    requires
        in_wide(a as int),
        in_wide(b as int),
    ensures
        r.0 == pixel_span(a as int, b as int, limit as int).0,
        r.1 == pixel_span(a as int, b as int, limit as int).1,
        0 <= r.0,
        r.1 <= limit,
        forall|p: int|
            r.0 <= p < r.1 ==> a <= #[trigger] (SUBPIXEL * p + HALF_PIXEL) < b,
{
    let s = first_pixel_of(a);
    let e = first_pixel_of(b);
    let s2 = if s < 0 {
        0
    } else {
        s
    };
    let e2 = if e > limit as i64 {
        limit as i64
    } else {
        e
    };
    (s2, e2)
}

pub open spec fn in_span(p: int, span: (int, int)) -> bool {
    span.0 <= p < span.1
}

/// Fill rule along a scanline: where two spans meet at a shared edge `b`,
/// no pixel belongs to both, and together they cover exactly the span from
/// `a` to `c`.
pub proof fn law_adjacent_spans(a: int, b: int, c: int, limit: int, p: int)
    requires
        a <= b <= c,
    ensures
        !(in_span(p, pixel_span(a, b, limit)) && in_span(p, pixel_span(b, c, limit))),
        in_span(p, pixel_span(a, c, limit)) <==> (in_span(p, pixel_span(a, b, limit)) || in_span(
            p,
            pixel_span(b, c, limit),
        )),
{
    vstd::arithmetic::div_mod::lemma_div_is_ordered(HALF_PIXEL - b, HALF_PIXEL - a, SUBPIXEL as int);
    vstd::arithmetic::div_mod::lemma_div_is_ordered(HALF_PIXEL - c, HALF_PIXEL - b, SUBPIXEL as int);
}

} // verus!
