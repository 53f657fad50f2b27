//! Line and triangle primitives, over vertices or over vertex indices, and
//! the winding order of a triangle.
use vstd::prelude::*;
use crate::vertex::{ColorVertex, Vec4};

verus! {

/// Line primitive: an ordered pair.
#[derive(Clone, Copy, Debug, PartialEq, Eq)]
pub struct Line<T>(pub T, pub T);

/// Triangle primitive: an ordered triple.
#[derive(Clone, Copy, Debug, PartialEq, Eq)]
pub struct Triangle<T>(pub T, pub T, pub T);

/// The winding order of a triangle after the perspective divide.
#[derive(Clone, Copy, Debug, PartialEq, Eq, Structural)]
pub enum WindingOrder {
    CounterClockwise,
    Clockwise,
    Degenerate,
}

impl Line<usize> {
    /// Primitive assembly: the line between the vertices at its two indices.
    pub fn unindex(&self, vertices: &[ColorVertex]) -> (r: Line<ColorVertex>)
        requires
            self.0 < vertices@.len(),
            self.1 < vertices@.len(),
        ensures
            r.0 == vertices@[self.0 as int],
            r.1 == vertices@[self.1 as int],
    {
        Line(vertices[self.0], vertices[self.1])
    }
}

impl Triangle<usize> {
    /// Primitive assembly: the triangle of the vertices at its three indices.
    pub fn unindex(&self, vertices: &[ColorVertex]) -> (r: Triangle<ColorVertex>)
        requires
            self.0 < vertices@.len(),
            self.1 < vertices@.len(),
            self.2 < vertices@.len(),
        ensures
            r.0 == vertices@[self.0 as int],
            r.1 == vertices@[self.1 as int],
            r.2 == vertices@[self.2 as int],
    {
        Triangle(vertices[self.0], vertices[self.1], vertices[self.2])
    }
}

/// `det [[x0, y0, w0], [x1, y1, w1], [x2, y2, w2]]`. Divided by
/// `w0 * w1 * w2` it is the 2D cross product `(p1 - p0) x (p2 - p0)` of the
/// positions after the perspective divide, `pi = (xi / wi, yi / wi)`.
pub open spec fn det3(p0: Vec4, p1: Vec4, p2: Vec4) -> int {
    p0.x * (p1.y * p2.w - p1.w * p2.y) - p0.y * (p1.x * p2.w - p1.w * p2.x) + p0.w * (p1.x * p2.y
        - p1.y * p2.x)
}

/// The sign of the post-divide cross product: positive is counter-clockwise,
/// negative clockwise, zero (or a vertex with `w == 0`) degenerate.
pub open spec fn winding_of(p0: Vec4, p1: Vec4, p2: Vec4) -> WindingOrder {
    let d = det3(p0, p1, p2);
    let ww = p0.w * p1.w * p2.w;
    if d == 0 || ww == 0 {
        WindingOrder::Degenerate
    } else if (d > 0) == (ww > 0) {
        WindingOrder::CounterClockwise
    } else {
        WindingOrder::Clockwise
    }
}

proof fn lemma_product_bounds(a: int, b: int, c: int)
    requires
        -0x1000000 <= a <= 0x1000000,
        -0x1000000 <= b <= 0x1000000,
        -0x1000000 <= c <= 0x1000000,
    ensures
        -0x1_0000_0000_0000 <= b * c <= 0x1_0000_0000_0000,
        -0x1_0000_0000_0000_0000_0000 <= a * (b * c) <= 0x1_0000_0000_0000_0000_0000,
{
    assert(-0x1_0000_0000_0000 <= b * c <= 0x1_0000_0000_0000) by (nonlinear_arith)
        requires
            -0x1000000 <= b <= 0x1000000,
            -0x1000000 <= c <= 0x1000000,
    ;
    assert(-0x1_0000_0000_0000_0000_0000 <= a * (b * c) <= 0x1_0000_0000_0000_0000_0000)
        by (nonlinear_arith)
        requires
            -0x1000000 <= a <= 0x1000000,
            -0x1_0000_0000_0000 <= b * c <= 0x1_0000_0000_0000,
    ;
}

impl Triangle<ColorVertex> {
    /// The winding order of this triangle after the perspective divide.
    pub fn get_winding(&self) -> (r: WindingOrder)
        requires
            self.0.bounded(),
            self.1.bounded(),
            self.2.bounded(),
        ensures
            r == winding_of(self.0.position, self.1.position, self.2.position),
    {
        let (p0, p1, p2) = (self.0.position, self.1.position, self.2.position);
        let (x0, y0, w0) = (p0.x as i128, p0.y as i128, p0.w as i128);
        let (x1, y1, w1) = (p1.x as i128, p1.y as i128, p1.w as i128);
        let (x2, y2, w2) = (p2.x as i128, p2.y as i128, p2.w as i128);
        proof {
            lemma_product_bounds(x0 as int, y1 as int, w2 as int);
            lemma_product_bounds(x0 as int, w1 as int, y2 as int);
            lemma_product_bounds(y0 as int, x1 as int, w2 as int);
            lemma_product_bounds(y0 as int, w1 as int, x2 as int);
            lemma_product_bounds(w0 as int, x1 as int, y2 as int);
            lemma_product_bounds(w0 as int, y1 as int, x2 as int);
            lemma_product_bounds(w0 as int, w1 as int, w2 as int);
            assert(x0 * (y1 * w2 - w1 * y2) == x0 * (y1 * w2) - x0 * (w1 * y2)) by (nonlinear_arith);
            assert(y0 * (x1 * w2 - w1 * x2) == y0 * (x1 * w2) - y0 * (w1 * x2)) by (nonlinear_arith);
            assert(w0 * (x1 * y2 - y1 * x2) == w0 * (x1 * y2) - w0 * (y1 * x2)) by (nonlinear_arith);
            assert(w0 * w1 * w2 == w0 * (w1 * w2)) by (nonlinear_arith);
        }
        let d = x0 * (y1 * w2) - x0 * (w1 * y2) - (y0 * (x1 * w2) - y0 * (w1 * x2)) + (w0 * (x1 * y2)
            - w0 * (y1 * x2));
        let ww = w0 * (w1 * w2);
        if d == 0 || ww == 0 {
            WindingOrder::Degenerate
        } else if (d > 0) == (ww > 0) {
            WindingOrder::CounterClockwise
        } else {
            WindingOrder::Clockwise
        }
    }
}

/// The opposite winding order; a degenerate triangle stays degenerate.
pub open spec fn reversed(w: WindingOrder) -> WindingOrder {
    match w {
        WindingOrder::CounterClockwise => WindingOrder::Clockwise,
        WindingOrder::Clockwise => WindingOrder::CounterClockwise,
        WindingOrder::Degenerate => WindingOrder::Degenerate,
    }
}

/// Swapping two vertices of a triangle reverses its winding order.
pub proof fn lemma_swap_reverses_winding(p0: Vec4, p1: Vec4, p2: Vec4)
    ensures
        winding_of(p0, p2, p1) == reversed(winding_of(p0, p1, p2)),
{
    assert(det3(p0, p2, p1) == -det3(p0, p1, p2)) by (nonlinear_arith);
    assert(p0.w * p2.w * p1.w == p0.w * p1.w * p2.w) by (nonlinear_arith);
}

} // verus!
