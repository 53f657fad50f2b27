//! Vertex records in homogeneous clip space.
//!
//! Coordinates and attributes are fixed-point integers. Every component of
//! a vertex takes part in the affine operations, so a vertex behaves as an
//! element of a vector space over its fields. Blending two vertices rounds
//! `w` up and every other component down: with that choice a blend of two
//! points that satisfy one of the frustum's half-space conditions
//! (`-w <= c` or `c <= w`) satisfies it too.
use vstd::prelude::*;
use vstd::arithmetic::div_mod::{lemma_div_is_ordered, lemma_div_multiples_vanish, lemma_fundamental_div_mod, lemma_mod_bound};

verus! {

/// Largest magnitude of any clip-space coordinate or vertex attribute.
pub const COORD_MAX: i64 = 16777216;

pub open spec fn in_range(v: int) -> bool {
    -COORD_MAX <= v <= COORD_MAX
}

/// Largest magnitude of a value that `lerp_down` and `lerp_up` blend.
pub open spec fn in_wide(v: int) -> bool {
    -0x2000_0000_0000_0000 <= v <= 0x2000_0000_0000_0000
}

/// A four-component integer vector: a clip-space position `(x, y, z, w)`,
/// or four attribute channels.
#[derive(Clone, Copy, Debug, PartialEq, Eq, Structural)]
pub struct Vec4 {
    pub x: i64,
    pub y: i64,
    pub z: i64,
    pub w: i64,
}

impl Vec4 {
    pub open spec fn bounded(self) -> bool {
        in_range(self.x as int) && in_range(self.y as int) && in_range(self.z as int) && in_range(
            self.w as int,
        )
    }

    pub fn new(x: i64, y: i64, z: i64, w: i64) -> (r: Vec4)
        ensures
            r == (Vec4 { x, y, z, w }),
    {
        Vec4 { x, y, z, w }
    }

    pub fn is_bounded(&self) -> (r: bool)
        ensures
            r == self.bounded(),
    {
        -COORD_MAX <= self.x && self.x <= COORD_MAX && -COORD_MAX <= self.y && self.y <= COORD_MAX
            && -COORD_MAX <= self.z && self.z <= COORD_MAX && -COORD_MAX <= self.w && self.w
            <= COORD_MAX
    }
}

/// A vertex: a clip-space position and an RGBA colour attribute.
#[derive(Clone, Copy, Debug, PartialEq, Eq, Structural)]
pub struct ColorVertex {
    pub position: Vec4,
    pub color: Vec4,
}

/// `a + (b - a) * n / d`, rounded down.
pub open spec fn lerp_floor(a: int, b: int, n: int, d: int) -> int {
    a + ((b - a) * n) / d
}

/// `a + (b - a) * n / d`, rounded up.
pub open spec fn lerp_ceil(a: int, b: int, n: int, d: int) -> int {
    a - ((a - b) * n) / d
}

/// A blend weight `n / d` that lies in `[0, 1]`.
pub open spec fn valid_weight(n: int, d: int) -> bool {
    0 <= n <= d && 0 < d
}

pub open spec fn blend_position(a: Vec4, b: Vec4, n: int, d: int) -> Vec4 {
    Vec4 {
        x: lerp_floor(a.x as int, b.x as int, n, d) as i64,
        y: lerp_floor(a.y as int, b.y as int, n, d) as i64,
        z: lerp_floor(a.z as int, b.z as int, n, d) as i64,
        w: lerp_ceil(a.w as int, b.w as int, n, d) as i64,
    }
}

pub open spec fn blend_channels(a: Vec4, b: Vec4, n: int, d: int) -> Vec4 {
    Vec4 {
        x: lerp_floor(a.x as int, b.x as int, n, d) as i64,
        y: lerp_floor(a.y as int, b.y as int, n, d) as i64,
        z: lerp_floor(a.z as int, b.z as int, n, d) as i64,
        w: lerp_floor(a.w as int, b.w as int, n, d) as i64,
    }
}

/// The affine combination `(1 - t) * a + t * b` with `t = n / d`.
pub open spec fn blend(a: ColorVertex, b: ColorVertex, n: int, d: int) -> ColorVertex {
    ColorVertex {
        position: blend_position(a.position, b.position, n, d),
        color: blend_channels(a.color, b.color, n, d),
    }
}

/// `a + s * b`, component-wise over all fields.
pub open spec fn combine(a: ColorVertex, b: ColorVertex, s: int) -> ColorVertex {
    ColorVertex {
        position: Vec4 {
            x: (a.position.x + s * b.position.x) as i64,
            y: (a.position.y + s * b.position.y) as i64,
            z: (a.position.z + s * b.position.z) as i64,
            w: (a.position.w + s * b.position.w) as i64,
        },
        color: Vec4 {
            x: (a.color.x + s * b.color.x) as i64,
            y: (a.color.y + s * b.color.y) as i64,
            z: (a.color.z + s * b.color.z) as i64,
            w: (a.color.w + s * b.color.w) as i64,
        },
    }
}

/// `k * v`, component-wise over all fields.
pub open spec fn scale_vertex(v: ColorVertex, k: int) -> ColorVertex {
    ColorVertex {
        position: Vec4 {
            x: (v.position.x * k) as i64,
            y: (v.position.y * k) as i64,
            z: (v.position.z * k) as i64,
            w: (v.position.w * k) as i64,
        },
        color: Vec4 {
            x: (v.color.x * k) as i64,
            y: (v.color.y * k) as i64,
            z: (v.color.z * k) as i64,
            w: (v.color.w * k) as i64,
        },
    }
}

/// `v / d`, component-wise over all fields, rounded down.
pub open spec fn divide_vertex(v: ColorVertex, d: int) -> ColorVertex {
    ColorVertex {
        position: Vec4 {
            x: (v.position.x as int / d) as i64,
            y: (v.position.y as int / d) as i64,
            z: (v.position.z as int / d) as i64,
            w: (v.position.w as int / d) as i64,
        },
        color: Vec4 {
            x: (v.color.x as int / d) as i64,
            y: (v.color.y as int / d) as i64,
            z: (v.color.z as int / d) as i64,
            w: (v.color.w as int / d) as i64,
        },
    }
}

/// The same vertex with its position negated: `(-x, -y, -z, -w)` is the
/// same point after the perspective divide.
pub open spec fn negated(v: ColorVertex) -> ColorVertex {
    ColorVertex {
        position: Vec4 {
            x: (-v.position.x) as i64,
            y: (-v.position.y) as i64,
            z: (-v.position.z) as i64,
            w: (-v.position.w) as i64,
        },
        color: v.color,
    }
}

impl ColorVertex {
    pub open spec fn bounded(self) -> bool {
        self.position.bounded() && self.color.bounded()
    }

    /// A vertex at `(x, y, z, 1)` with the given colour channels.
    pub fn new(x: i64, y: i64, z: i64, color: Vec4) -> (r: ColorVertex)
        ensures
            r.position == (Vec4 { x, y, z, w: 1 }),
            r.color == color,
    {
        ColorVertex { position: Vec4 { x, y, z, w: 1 }, color }
    }

    pub fn position(&self) -> (r: Vec4)
        ensures
            r == self.position,
    {
        self.position
    }

    pub fn is_bounded(&self) -> (r: bool)
        ensures
            r == self.bounded(),
    {
        self.position.is_bounded() && self.color.is_bounded()
    }

    /// The same vertex with its position negated.
    pub fn negate_position(&self) -> (r: ColorVertex)
        requires
            self.bounded(),
        ensures
            r == negated(*self),
            r.bounded(),
    {
        ColorVertex {
            position: Vec4 {
                x: -self.position.x,
                y: -self.position.y,
                z: -self.position.z,
                w: -self.position.w,
            },
            color: self.color,
        }
    }

    /// Component-wise sum of all fields.
    pub fn add(&self, other: &ColorVertex) -> (r: ColorVertex)
        requires
            self.bounded(),
            other.bounded(),
        ensures
            r == combine(*self, *other, 1),
    {
        ColorVertex {
            position: Vec4 {
                x: self.position.x + other.position.x,
                y: self.position.y + other.position.y,
                z: self.position.z + other.position.z,
                w: self.position.w + other.position.w,
            },
            color: Vec4 {
                x: self.color.x + other.color.x,
                y: self.color.y + other.color.y,
                z: self.color.z + other.color.z,
                w: self.color.w + other.color.w,
            },
        }
    }

    /// Component-wise difference of all fields.
    pub fn sub(&self, other: &ColorVertex) -> (r: ColorVertex)
        requires
            self.bounded(),
            other.bounded(),
        ensures
            r == combine(*self, *other, -1),
    {
        ColorVertex {
            position: Vec4 {
                x: self.position.x - other.position.x,
                y: self.position.y - other.position.y,
                z: self.position.z - other.position.z,
                w: self.position.w - other.position.w,
            },
            color: Vec4 {
                x: self.color.x - other.color.x,
                y: self.color.y - other.color.y,
                z: self.color.z - other.color.z,
                w: self.color.w - other.color.w,
            },
        }
    }

    /// Every field multiplied by `k`.
    pub fn mul(&self, k: i64) -> (r: ColorVertex)
        requires
            self.bounded(),
            -COORD_MAX <= k <= COORD_MAX,
        ensures
            r == scale_vertex(*self, k as int),
    {
        proof {
            assert(forall|c: int|
                -COORD_MAX <= c <= COORD_MAX ==> -COORD_MAX * COORD_MAX <= #[trigger] (c * k)
                    <= COORD_MAX * COORD_MAX) by (nonlinear_arith)
                requires
                    -COORD_MAX <= k <= COORD_MAX,
            ;
        }
        ColorVertex {
            position: Vec4 {
                x: self.position.x * k,
                y: self.position.y * k,
                z: self.position.z * k,
                w: self.position.w * k,
            },
            color: Vec4 {
                x: self.color.x * k,
                y: self.color.y * k,
                z: self.color.z * k,
                w: self.color.w * k,
            },
        }
    }

    /// Every field divided by `d > 0`, rounded down.
    pub fn div(&self, d: i64) -> (r: ColorVertex)
        requires
            self.bounded(),
            d > 0,
        ensures
            r == divide_vertex(*self, d as int),
            r.bounded(),
    {
        ColorVertex {
            position: Vec4 {
                x: lerp_down(0, self.position.x, 1, d),
                y: lerp_down(0, self.position.y, 1, d),
                z: lerp_down(0, self.position.z, 1, d),
                w: lerp_down(0, self.position.w, 1, d),
            },
            color: Vec4 {
                x: lerp_down(0, self.color.x, 1, d),
                y: lerp_down(0, self.color.y, 1, d),
                z: lerp_down(0, self.color.z, 1, d),
                w: lerp_down(0, self.color.w, 1, d),
            },
        }
    }

    /// `(1 - t) * self + t * other` with `t = n / d`.
    pub fn interpolate(&self, other: &ColorVertex, n: i64, d: i64) -> (r: ColorVertex)
        requires
            self.bounded(),
            other.bounded(),
            valid_weight(n as int, d as int),
        ensures
            r == blend(*self, *other, n as int, d as int),
            r.bounded(),
    {
        ColorVertex {
            position: Vec4 {
                x: lerp_down(self.position.x, other.position.x, n, d),
                y: lerp_down(self.position.y, other.position.y, n, d),
                z: lerp_down(self.position.z, other.position.z, n, d),
                w: lerp_up(self.position.w, other.position.w, n, d),
            },
            color: Vec4 {
                x: lerp_down(self.color.x, other.color.x, n, d),
                y: lerp_down(self.color.y, other.color.y, n, d),
                z: lerp_down(self.color.z, other.color.z, n, d),
                w: lerp_down(self.color.w, other.color.w, n, d),
            },
        }
    }
}

/// Coordinate `axis` of a position: `x`, `y` or `z` for axis 0, 1 or 2.
pub open spec fn coord(p: Vec4, axis: int) -> int {
    if axis == 0 {
        p.x as int
    } else if axis == 1 {
        p.y as int
    } else {
        p.z as int
    }
}

/// Blending keeps every value between its two ends, so the `as i64` in
/// `blend` loses nothing.
pub proof fn lemma_blend_exact(a: Vec4, b: Vec4, n: int, d: int)
    requires
        a.bounded(),
        b.bounded(),
        valid_weight(n, d),
    ensures
        forall|axis: int|
            0 <= axis < 3 ==> coord(#[trigger] blend_position(a, b, n, d), axis) == lerp_floor(
                coord(a, axis),
                coord(b, axis),
                n,
                d,
            ),
        blend_position(a, b, n, d).w == lerp_ceil(a.w as int, b.w as int, n, d),
        blend_position(a, b, n, d).bounded(),
        blend_channels(a, b, n, d).bounded(),
{
    lemma_scaled_between(b.w - a.w, n, d);
    lemma_scaled_between(b.x - a.x, n, d);
    lemma_scaled_between(b.y - a.y, n, d);
    lemma_scaled_between(b.z - a.z, n, d);
    lemma_scaled_between(a.w - b.w, n, d);
}

/// `w + c` for a lower bound `-w <= c`, `w - c` for an upper bound `c <= w`:
/// not negative iff the bound holds.
pub open spec fn side(w: int, c: int, lower: bool) -> int {
    if lower {
        w + c
    } else {
        w - c
    }
}

/// A blend of two points that both satisfy one bound satisfies it too, with
/// `w` rounded up and `c` rounded down.
pub proof fn lemma_blend_keeps_halfspace(c0: int, w0: int, c1: int, w1: int, n: int, d: int, lower: bool)
    requires
        valid_weight(n, d),
        side(w0, c0, lower) >= 0,
        side(w1, c1, lower) >= 0,
    ensures
        side(lerp_ceil(w0, w1, n, d), lerp_floor(c0, c1, n, d), lower) >= 0,
{
    let kc = (c1 - c0) * n;
    let kw = (w0 - w1) * n;
    let fc = kc / d;
    let fw = kw / d;
    lemma_floor_bounds(kc, d);
    lemma_floor_bounds(kw, d);
    let h0 = side(w0, c0, lower);
    let h1 = side(w1, c1, lower);
    assert((d - n) * h0 + n * h1 >= 0) by (nonlinear_arith)
        requires
            h0 >= 0,
            h1 >= 0,
            0 <= n <= d,
    ;
    if lower {
        assert(d * ((w0 - fw) + (c0 + fc)) > -d) by (nonlinear_arith)
            requires
                d * fw <= kw,
                kc < d * fc + d,
                kc == (c1 - c0) * n,
                kw == (w0 - w1) * n,
                (d - n) * (w0 + c0) + n * (w1 + c1) >= 0,
        ;
        assert((w0 - fw) + (c0 + fc) >= 0) by (nonlinear_arith)
            requires
                d * ((w0 - fw) + (c0 + fc)) > -d,
                d > 0,
        ;
    } else {
        assert(d * ((w0 - fw) - (c0 + fc)) >= 0) by (nonlinear_arith)
            requires
                d * fw <= kw,
                d * fc <= kc,
                kc == (c1 - c0) * n,
                kw == (w0 - w1) * n,
                (d - n) * (w0 - c0) + n * (w1 - c1) >= 0,
        ;
        assert((w0 - fw) - (c0 + fc) >= 0) by (nonlinear_arith)
            requires
                d * ((w0 - fw) - (c0 + fc)) >= 0,
                d > 0,
        ;
    }
}

/// Where the blend lands exactly on one bound's plane and both ends satisfy
/// the opposite bound, the rounded-up `w` of the blend is not negative.
pub proof fn lemma_cut_w_nonneg(c0: int, w0: int, c1: int, w1: int, n: int, d: int, lower: bool)
    requires
        valid_weight(n, d),
        d * side(w0, c0, lower) + n * (side(w1, c1, lower) - side(w0, c0, lower)) == 0,
        side(w0, c0, !lower) >= 0,
        side(w1, c1, !lower) >= 0,
    ensures
        lerp_ceil(w0, w1, n, d) >= 0,
{
    let kw = (w0 - w1) * n;
    let fw = kw / d;
    lemma_floor_bounds(kw, d);
    let g0 = side(w0, c0, !lower);
    let g1 = side(w1, c1, !lower);
    let h0 = side(w0, c0, lower);
    let h1 = side(w1, c1, lower);
    assert((d - n) * g0 + n * g1 >= 0) by (nonlinear_arith)
        requires
            g0 >= 0,
            g1 >= 0,
            0 <= n <= d,
    ;
    assert(h0 + g0 == 2 * w0 && h1 + g1 == 2 * w1);
    assert(d * (w0 - fw) >= 0) by (nonlinear_arith)
        requires
            d * fw <= kw,
            kw == (w0 - w1) * n,
            d * h0 + n * (h1 - h0) == 0,
            (d - n) * g0 + n * g1 >= 0,
            h0 + g0 == 2 * w0,
            h1 + g1 == 2 * w1,
    ;
    assert(w0 - fw >= 0) by (nonlinear_arith)
        requires
            d * (w0 - fw) >= 0,
            d > 0,
    ;
}

/// Interpolation affinity: `interpolate(a, b, t)` is `a` at `t = 0` and `b`
/// at `t = 1`; for every `t` in between it is `blend(a, b, t)`, the
/// component-wise `(1 - t) * a + t * b` that `interpolate` ensures.
pub proof fn law_interpolation_ends(a: ColorVertex, b: ColorVertex, d: int)
    requires
        0 < d,
    ensures
        blend(a, b, 0, d) == a,
        blend(a, b, d, d) == b,
{
    assert forall|k: int| #[trigger] ((k * 0) / d) == 0 && #[trigger] ((k * d) / d) == k by {
        assert(k * 0 == 0);
        lemma_div_multiples_vanish(k, d);
        assert(k * d == d * k);
    }
    assert(blend(a, b, 0, d).position == a.position);
    assert(blend(a, b, 0, d).color == a.color);
    assert(blend(a, b, d, d).position == b.position);
    assert(blend(a, b, d, d).color == b.color);
}

/// `k * n / d` lies between `0` and `k` when `n / d` lies in `[0, 1]`.
pub proof fn lemma_scaled_between(k: int, n: int, d: int)
    requires
        valid_weight(n, d),
    ensures
        k >= 0 ==> 0 <= (k * n) / d <= k,
        k < 0 ==> k <= (k * n) / d <= 0,
{
    if k >= 0 {
        assert(0 <= k * n <= d * k) by (nonlinear_arith)
            requires
                k >= 0,
                0 <= n <= d,
        ;
        lemma_div_is_ordered(0, k * n, d);
        lemma_div_is_ordered(k * n, d * k, d);
        lemma_div_multiples_vanish(k, d);
    } else {
        assert(d * k <= k * n <= 0) by (nonlinear_arith)
            requires
                k < 0,
                0 <= n <= d,
        ;
        lemma_div_is_ordered(k * n, 0, d);
        lemma_div_is_ordered(d * k, k * n, d);
        lemma_div_multiples_vanish(k, d);
    }
}

/// Floor division brackets its argument: `d * (k / d) <= k < d * (k / d) + d`.
pub proof fn lemma_floor_bounds(k: int, d: int)
    requires
        0 < d,
    ensures
        d * (k / d) <= k < d * (k / d) + d,
{
    lemma_fundamental_div_mod(k, d);
    lemma_mod_bound(k, d);
}

/// `k / d` for `d > 0`, rounded down.
fn div_floor(k: i128, d: i128) -> (q: i128)
    requires
        0 < d,
        -0x4000_0000_0000_0000_0000_0000_0000_0000 <= k <= 0x4000_0000_0000_0000_0000_0000_0000_0000,
    ensures
        q == k / d,
{
    proof {
        lemma_floor_bounds(k as int, d as int);
        if k >= 0 {
            lemma_scaled_between(k as int, 1, d as int);
            assert(k * 1 == k);
        } else {
            lemma_scaled_between(k as int, 1, d as int);
            assert(k * 1 == k);
        }
    }
    match k.checked_div_euclid(d) {
        Some(q) => q,
        None => 0,
    }
}

/// `a + (b - a) * n / d`, rounded down.
pub fn lerp_down(a: i64, b: i64, n: i64, d: i64) -> (r: i64)
    requires
        in_wide(a as int),
        in_wide(b as int),
        valid_weight(n as int, d as int),
    ensures
        r == lerp_floor(a as int, b as int, n as int, d as int),
        a <= b ==> a <= r <= b,
        b <= a ==> b <= r <= a,
{
    proof {
        assert(-0x8000_0000_0000_0000 * 0x8000_0000_0000_0000 <= (b - a) * n <= 0x8000_0000_0000_0000 * 0x8000_0000_0000_0000)
            by (nonlinear_arith)
            requires
                -0x8000_0000_0000_0000 <= b - a <= 0x8000_0000_0000_0000,
                0 <= n < 0x8000_0000_0000_0000,
        ;
        lemma_scaled_between(b - a, n as int, d as int);
    }
    let k: i128 = (b as i128 - a as i128) * (n as i128);
    let q = div_floor(k, d as i128);
    (a as i128 + q) as i64
}

/// `a + (b - a) * n / d`, rounded up.
pub fn lerp_up(a: i64, b: i64, n: i64, d: i64) -> (r: i64)
    requires
        in_wide(a as int),
        in_wide(b as int),
        valid_weight(n as int, d as int),
    ensures
        r == lerp_ceil(a as int, b as int, n as int, d as int),
        a <= b ==> a <= r <= b,
        b <= a ==> b <= r <= a,
{
    proof {
        assert(-0x8000_0000_0000_0000 * 0x8000_0000_0000_0000 <= (a - b) * n <= 0x8000_0000_0000_0000 * 0x8000_0000_0000_0000)
            by (nonlinear_arith)
            requires
                -0x8000_0000_0000_0000 <= a - b <= 0x8000_0000_0000_0000,
                0 <= n < 0x8000_0000_0000_0000,
        ;
        lemma_scaled_between(a - b, n as int, d as int);
    }
    let k: i128 = (a as i128 - b as i128) * (n as i128);
    let q = div_floor(k, d as i128);
    (a as i128 - q) as i64
}

} // verus!
