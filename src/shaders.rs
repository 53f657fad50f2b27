//! A basic effect: a fixed-point world-view-projection transform in the
//! vertex stage, the interpolated colour in the fragment stage.
use vstd::prelude::*;
use crate::pipeline::Effect;
use crate::target::Color;
use crate::vertex::{ColorVertex, Vec4};

verus! {

/// `1.0` in the fixed point of matrix entries.
pub const MATRIX_ONE: i64 = 65536;

/// Largest magnitude of a matrix entry.
pub const MATRIX_ENTRY_MAX: i64 = 0x100_0000_0000;

/// A 4x4 matrix in fixed point, by rows: output component `x` is the
/// product of row `x` with the input, and so on.
#[derive(Clone, Copy, Debug, PartialEq, Eq, Structural)]
pub struct Matrix {
    pub x: Vec4,
    pub y: Vec4,
    pub z: Vec4,
    pub w: Vec4,
}

pub open spec fn entry_ok(v: i64) -> bool {
    -MATRIX_ENTRY_MAX <= v <= MATRIX_ENTRY_MAX
}

pub open spec fn row_ok(r: Vec4) -> bool {
    entry_ok(r.x) && entry_ok(r.y) && entry_ok(r.z) && entry_ok(r.w)
}

/// `row . p / MATRIX_ONE`, rounded down.
pub open spec fn row_times(row: Vec4, p: Vec4) -> int {
    (row.x * p.x + row.y * p.y + row.z * p.z + row.w * p.w) / (MATRIX_ONE as int)
}

pub open spec fn transformed(m: Matrix, p: Vec4) -> Vec4 {
    Vec4 {
        x: row_times(m.x, p) as i64,
        y: row_times(m.y, p) as i64,
        z: row_times(m.z, p) as i64,
        w: row_times(m.w, p) as i64,
    }
}

impl Matrix {
    pub open spec fn entries_ok(&self) -> bool {
        row_ok(self.x) && row_ok(self.y) && row_ok(self.z) && row_ok(self.w)
    }

    pub fn identity() -> (r: Matrix)
        ensures
            r.entries_ok(),
            forall|p: Vec4| p.bounded() ==> #[trigger] transformed(r, p) == p,
    {
        let r = Matrix {
            x: Vec4 { x: MATRIX_ONE, y: 0, z: 0, w: 0 },
            y: Vec4 { x: 0, y: MATRIX_ONE, z: 0, w: 0 },
            z: Vec4 { x: 0, y: 0, z: MATRIX_ONE, w: 0 },
            w: Vec4 { x: 0, y: 0, z: 0, w: MATRIX_ONE },
        };
        proof {
            assert forall|p: Vec4| p.bounded() implies #[trigger] transformed(r, p) == p by {
                vstd::arithmetic::div_mod::lemma_div_multiples_vanish(p.x as int, MATRIX_ONE as int);
                vstd::arithmetic::div_mod::lemma_div_multiples_vanish(p.y as int, MATRIX_ONE as int);
                vstd::arithmetic::div_mod::lemma_div_multiples_vanish(p.z as int, MATRIX_ONE as int);
                vstd::arithmetic::div_mod::lemma_div_multiples_vanish(p.w as int, MATRIX_ONE as int);
            }
        }
        r
    }

    pub fn has_entries_ok(&self) -> (r: bool)
        ensures
            r == self.entries_ok(),
    {
        row_in_range(&self.x) && row_in_range(&self.y) && row_in_range(&self.z) && row_in_range(
            &self.w,
        )
    }

    /// The matrix applied to a bounded position.
    pub fn transform(&self, p: &Vec4) -> (r: Vec4)
        requires
            self.entries_ok(),
            p.bounded(),
        ensures
            r == transformed(*self, *p),
    {
        Vec4 {
            x: row_product(&self.x, p),
            y: row_product(&self.y, p),
            z: row_product(&self.z, p),
            w: row_product(&self.w, p),
        }
    }
}

fn row_in_range(r: &Vec4) -> (b: bool)
    ensures
        b == row_ok(*r),
{
    -MATRIX_ENTRY_MAX <= r.x && r.x <= MATRIX_ENTRY_MAX && -MATRIX_ENTRY_MAX <= r.y && r.y
        <= MATRIX_ENTRY_MAX && -MATRIX_ENTRY_MAX <= r.z && r.z <= MATRIX_ENTRY_MAX
        && -MATRIX_ENTRY_MAX <= r.w && r.w <= MATRIX_ENTRY_MAX
}

fn row_product(row: &Vec4, p: &Vec4) -> (r: i64)
    requires
        row_ok(*row),
        p.bounded(),
    ensures
        r == row_times(*row, *p),
{
    proof {
        assert(forall|a: int, b: int|
            -MATRIX_ENTRY_MAX <= a <= MATRIX_ENTRY_MAX && -0x1000000 <= b <= 0x1000000 ==> -0x100_0000_0000_0000_0000 <= #[trigger] (a * b) <= 0x100_0000_0000_0000_0000)
            by (nonlinear_arith);
    }
    let s: i128 = row.x as i128 * p.x as i128 + row.y as i128 * p.y as i128 + row.z as i128 * p.z as i128
        + row.w as i128 * p.w as i128;
    proof {
        crate::vertex::lemma_scaled_between(s as int, 1, MATRIX_ONE as int);
        assert(s * 1 == s);
        vstd::arithmetic::div_mod::lemma_div_is_ordered(s as int, 0x400_0000_0000_0000_0000, MATRIX_ONE as int);
        vstd::arithmetic::div_mod::lemma_div_is_ordered(-0x400_0000_0000_0000_0000, s as int, MATRIX_ONE as int);
    }
    let q = match s.checked_div_euclid(MATRIX_ONE as i128) {
        Some(q) => q,
        None => 0,
    };
    q as i64
}

/// Clamps a colour channel into `[0, 255]`.
pub open spec fn channel_of(c: i64) -> u8 {
    if c < 0 {
        0
    } else if c > 255 {
        255
    } else {
        c as u8
    }
}

pub fn to_channel(c: i64) -> (r: u8)
    ensures
        r == channel_of(c),
{
    if c < 0 {
        0
    } else if c > 255 {
        255
    } else {
        c as u8
    }
}

/// The colour of four channels, each clamped into `[0, 255]`.
pub fn vector4_to_color(c: &Vec4) -> (r: Color)
    ensures
        r == (Color {
            r: channel_of(c.x),
            g: channel_of(c.y),
            b: channel_of(c.z),
            a: channel_of(c.w),
        }),
{
    Color { r: to_channel(c.x), g: to_channel(c.y), b: to_channel(c.z), a: to_channel(c.w) }
}

/// Transforms positions by a world-view-projection matrix and paints the
/// interpolated colour.
pub struct BasicEffect {
    worldviewproj: Matrix,
}

impl BasicEffect {
    #[verifier::type_invariant]
    spec fn entries_in_range(&self) -> bool {
        self.worldviewproj.entries_ok()
    }

    pub closed spec fn matrix(&self) -> Matrix {
        self.worldviewproj
    }

    pub fn new(worldviewproj: Matrix) -> (r: BasicEffect)
        requires
            worldviewproj.entries_ok(),
        ensures
            r.matrix() == worldviewproj,
    {
        BasicEffect { worldviewproj }
    }

    /// The effect with the identity transform.
    pub fn identity() -> (r: BasicEffect)
        ensures
            forall|p: Vec4| p.bounded() ==> #[trigger] transformed(r.matrix(), p) == p,
    {
        BasicEffect { worldviewproj: Matrix::identity() }
    }

    pub fn worldviewproj(&self) -> (r: Matrix)
        ensures
            r == self.matrix(),
    {
        self.worldviewproj
    }

    pub fn set_worldviewproj(&mut self, m: Matrix)
        requires
            m.entries_ok(),
        ensures
            final(self).matrix() == m,
    {
        self.worldviewproj = m;
    }

    /// The vertex stage: a bounded vertex gets its position transformed;
    /// any other vertex is handed back as it is, and the pipeline rejects it.
    pub fn transform_vertex(&self, input: &ColorVertex) -> (r: ColorVertex)
        ensures
            input.bounded() ==> r == (ColorVertex {
                position: transformed(self.matrix(), input.position),
                color: input.color,
            }),
            !input.bounded() ==> r == *input,
    {
        proof {
            use_type_invariant(self);
        }
        if input.is_bounded() {
            ColorVertex { position: self.worldviewproj.transform(&input.position), color: input.color }
        } else {
            *input
        }
    }
}

/// The vertex stage of an effect with matrix `m`.
pub open spec fn basic_vertex(m: Matrix, input: ColorVertex) -> ColorVertex {
    if input.bounded() {
        ColorVertex { position: transformed(m, input.position), color: input.color }
    } else {
        input
    }
}

/// The colour of four channels, each clamped into `[0, 255]`.
pub open spec fn color_of(c: Vec4) -> Color {
    Color { r: channel_of(c.x), g: channel_of(c.y), b: channel_of(c.z), a: channel_of(c.w) }
}

impl Effect for BasicEffect {
    open spec fn vertex_fn(&self, input: ColorVertex) -> ColorVertex {
        basic_vertex(self.matrix(), input)
    }

    open spec fn fragment_fn(&self, input: ColorVertex) -> Color {
        color_of(input.color)
    }

    fn vs(&self, input: &ColorVertex) -> ColorVertex {
        self.transform_vertex(input)
    }

    fn ps(&self, input: &ColorVertex) -> Color {
        vector4_to_color(&input.color)
    }
}

} // verus!
