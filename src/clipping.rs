//! Clipping in homogeneous clip space.
//!
//! A position is inside the view frustum iff `-w <= x <= w`,
//! `-w <= y <= w` and `-w <= z <= w`. Each of the six conditions is a
//! half-space over one axis `c`: `w + c >= 0` for a lower bound, `w - c >= 0`
//! for an upper one. The planes are numbered LEFT 0, RIGHT 1, BOTTOM 2,
//! TOP 3, FRONT 4, BACK 5, so that plane `q` bounds axis `q / 2`, is a lower
//! bound iff `q` is even, and is bit `q` of an outcode.
use vstd::prelude::*;
use crate::primitives::{winding_of, Line, Triangle, WindingOrder};
use crate::vertex::{
    blend, blend_position, coord, lemma_blend_exact, lemma_blend_keeps_halfspace,
    lemma_cut_w_nonneg, side, valid_weight, ColorVertex, Vec4, COORD_MAX,
};

verus! {

pub const LEFT: u8 = 0;
pub const RIGHT: u8 = 1;
pub const BOTTOM: u8 = 2;
pub const TOP: u8 = 3;
pub const FRONT: u8 = 4;
pub const BACK: u8 = 5;

/// Whether a plane bounds its axis from below (`-w <= c`) rather than from
/// above (`c <= w`).
pub open spec fn plane_lower(plane: int) -> bool {
    plane % 2 == 0
}

pub open spec fn plane_axis(plane: int) -> int {
    plane / 2
}

/// `w + c` or `w - c`: not negative iff the position is on the inner side of the plane.
pub open spec fn plane_value(p: Vec4, plane: int) -> int {
    side(p.w as int, coord(p, plane_axis(plane)), plane_lower(plane))
}

pub open spec fn violates(p: Vec4, plane: int) -> bool {
    plane_value(p, plane) < 0
}

pub open spec fn inside(p: Vec4) -> bool {
    forall|q: int| 0 <= q < 6 ==> !#[trigger] violates(p, q)
}

/// The six half-space violations of a position.
#[derive(Clone, Copy, Debug, PartialEq, Eq, Structural)]
pub struct OutCode {
    pub left: bool,
    pub right: bool,
    pub bottom: bool,
    pub top: bool,
    pub front: bool,
    pub back: bool,
}

pub open spec fn outcode_of(p: Vec4) -> OutCode {
    OutCode {
        left: violates(p, 0),
        right: violates(p, 1),
        bottom: violates(p, 2),
        top: violates(p, 3),
        front: violates(p, 4),
        back: violates(p, 5),
    }
}

pub open spec fn bit(b: bool, weight: int) -> int {
    if b {
        weight
    } else {
        0
    }
}

impl OutCode {
    pub open spec fn has(self, plane: int) -> bool {
        if plane == 0 {
            self.left
        } else if plane == 1 {
            self.right
        } else if plane == 2 {
            self.bottom
        } else if plane == 3 {
            self.top
        } else if plane == 4 {
            self.front
        } else {
            self.back
        }
    }

    pub open spec fn value(self) -> int {
        bit(self.left, 1) + bit(self.right, 2) + bit(self.bottom, 4) + bit(self.top, 8) + bit(
            self.front,
            16,
        ) + bit(self.back, 32)
    }

    /// The six-bit value of the outcode: bit `q` is set iff plane `q` is violated.
    pub fn bits(&self) -> (r: u8)
        ensures
            r == self.value(),
    {
        let mut r: u8 = 0;
        if self.left {
            r = r + 1;
        }
        if self.right {
            r = r + 2;
        }
        if self.bottom {
            r = r + 4;
        }
        if self.top {
            r = r + 8;
        }
        if self.front {
            r = r + 16;
        }
        if self.back {
            r = r + 32;
        }
        r
    }

    pub fn is_inside(&self) -> (r: bool)
        ensures
            r == (forall|q: int| 0 <= q < 6 ==> !#[trigger] self.has(q)),
    {
        let r = !(self.left || self.right || self.bottom || self.top || self.front || self.back);
        proof {
            if !r {
                if self.left {
                    assert(self.has(0));
                } else if self.right {
                    assert(self.has(1));
                } else if self.bottom {
                    assert(self.has(2));
                } else if self.top {
                    assert(self.has(3));
                } else if self.front {
                    assert(self.has(4));
                } else {
                    assert(self.has(5));
                }
            }
        }
        r
    }

    /// Whether both outcodes hold a common plane (their bitwise AND is not zero).
    pub fn shares(&self, other: &OutCode) -> (r: bool)
        ensures
            r == (exists|q: int| 0 <= q < 6 && #[trigger] self.has(q) && other.has(q)),
    {
        let r = (self.left && other.left) || (self.right && other.right) || (self.bottom
            && other.bottom) || (self.top && other.top) || (self.front && other.front) || (
        self.back && other.back);
        proof {
            if r {
                if self.left && other.left {
                    assert(self.has(0) && other.has(0));
                } else if self.right && other.right {
                    assert(self.has(1) && other.has(1));
                } else if self.bottom && other.bottom {
                    assert(self.has(2) && other.has(2));
                } else if self.top && other.top {
                    assert(self.has(3) && other.has(3));
                } else if self.front && other.front {
                    assert(self.has(4) && other.has(4));
                } else {
                    assert(self.has(5) && other.has(5));
                }
            }
        }
        r
    }

    /// The first violated plane in the order RIGHT, LEFT, TOP, BOTTOM, BACK, FRONT.
    pub fn first_plane(&self) -> (r: u8)
        requires
            exists|q: int| 0 <= q < 6 && #[trigger] self.has(q),
        ensures
            r < 6,
            self.has(r as int),
            r == first_plane_of(*self),
    {
        if self.right {
            RIGHT
        } else if self.left {
            LEFT
        } else if self.top {
            TOP
        } else if self.bottom {
            BOTTOM
        } else if self.back {
            BACK
        } else {
            FRONT
        }
    }
}

pub open spec fn first_plane_of(c: OutCode) -> int {
    if c.right {
        1
    } else if c.left {
        0
    } else if c.top {
        3
    } else if c.bottom {
        2
    } else if c.back {
        5
    } else {
        4
    }
}

/// Computes the outcode of a position against the unit view frustum.
pub fn compute_outcode(position: Vec4) -> (r: OutCode)
    ensures
        r == outcode_of(position),
{
    let x = position.x as i128;
    let y = position.y as i128;
    let z = position.z as i128;
    let w = position.w as i128;
    OutCode {
        left: w + x < 0,
        right: w - x < 0,
        bottom: w + y < 0,
        top: w - y < 0,
        front: w + z < 0,
        back: w - z < 0,
    }
}

proof fn lemma_outcode_has(p: Vec4)
    ensures
        forall|q: int| 0 <= q < 6 ==> (#[trigger] outcode_of(p).has(q) == violates(p, q)),
{
}

/// `plane_value` of a bounded position, computed.
fn plane_value_of(p: &Vec4, plane: u8) -> (r: i64)
    requires
        p.bounded(),
        plane < 6,
    ensures
        r == plane_value(*p, plane as int),
        -2 * COORD_MAX <= r <= 2 * COORD_MAX,
{
    if plane == LEFT {
        p.w + p.x
    } else if plane == RIGHT {
        p.w - p.x
    } else if plane == BOTTOM {
        p.w + p.y
    } else if plane == TOP {
        p.w - p.y
    } else if plane == FRONT {
        p.w + p.z
    } else {
        p.w - p.z
    }
}

/// The weight `n / d` of the point where the segment `a -> b` meets a plane
/// that exactly one of its ends violates.
pub open spec fn cut_num(a: Vec4, b: Vec4, plane: int) -> int {
    let f0 = plane_value(a, plane);
    if f0 < 0 {
        -f0
    } else {
        f0
    }
}

pub open spec fn cut_den(a: Vec4, b: Vec4, plane: int) -> int {
    let f0 = plane_value(a, plane);
    let f1 = plane_value(b, plane);
    if f0 < 0 {
        f1 - f0
    } else {
        f0 - f1
    }
}

/// Puts a position exactly on a plane: its coordinate on the plane's axis
/// becomes `-w` for a lower bound, `w` for an upper one.
pub open spec fn snap(p: Vec4, plane: int) -> Vec4 {
    let a = plane_axis(plane);
    let c = (if plane_lower(plane) {
        -p.w
    } else {
        p.w as int
    }) as i64;
    if a == 0 {
        Vec4 { x: c, ..p }
    } else if a == 1 {
        Vec4 { y: c, ..p }
    } else {
        Vec4 { z: c, ..p }
    }
}

/// The vertex where the segment `a -> b` crosses a plane, all attributes
/// blended, with the position snapped onto the plane.
pub open spec fn cut(a: ColorVertex, b: ColorVertex, plane: int) -> ColorVertex {
    let v = blend(a, b, cut_num(a.position, b.position, plane), cut_den(a.position, b.position, plane));
    ColorVertex { position: snap(v.position, plane), ..v }
}

/// The cut lies on the plane, is bounded, and violates no plane that both
/// ends satisfy.
proof fn lemma_cut(a: ColorVertex, b: ColorVertex, plane: int)
    requires
        a.bounded(),
        b.bounded(),
        0 <= plane < 6,
        violates(a.position, plane) != violates(b.position, plane),
    ensures
        valid_weight(cut_num(a.position, b.position, plane), cut_den(a.position, b.position, plane)),
        cut(a, b, plane).bounded(),
        !violates(cut(a, b, plane).position, plane),
        forall|q: int|
            0 <= q < 6 && #[trigger] violates(cut(a, b, plane).position, q) ==> violates(a.position, q)
                || violates(b.position, q),
{
    let n = cut_num(a.position, b.position, plane);
    let d = cut_den(a.position, b.position, plane);
    let f0 = plane_value(a.position, plane);
    let f1 = plane_value(b.position, plane);
    let bp = blend_position(a.position, b.position, n, d);
    lemma_blend_exact(a.position, b.position, n, d);
    lemma_blend_exact(a.color, b.color, n, d);
    let c = cut(a, b, plane);
    let lower = plane_lower(plane);
    let ax = plane_axis(plane);
    assert(d * f0 + n * (f1 - f0) == 0) by (nonlinear_arith)
        requires
            (f0 < 0 && n == -f0 && d == f1 - f0) || (f0 >= 0 && n == f0 && d == f0 - f1),
    ;
    assert(c.position.w == bp.w);
    assert(plane_value(c.position, plane) == 0);
    assert(c.position.bounded());
    assert forall|q: int|
        0 <= q < 6 && #[trigger] violates(c.position, q) implies violates(a.position, q) || violates(
            b.position,
            q,
        ) by {
        let aq = plane_axis(q);
        if !violates(a.position, q) && !violates(b.position, q) {
            if aq != ax {
                lemma_blend_keeps_halfspace(
                    coord(a.position, aq),
                    a.position.w as int,
                    coord(b.position, aq),
                    b.position.w as int,
                    n,
                    d,
                    plane_lower(q),
                );
                assert(coord(c.position, aq) == coord(bp, aq));
            } else if q != plane {
                assert(plane_lower(q) == !lower);
                lemma_cut_w_nonneg(
                    coord(a.position, ax),
                    a.position.w as int,
                    coord(b.position, ax),
                    b.position.w as int,
                    n,
                    d,
                    lower,
                );
                assert(plane_value(c.position, q) == 2 * bp.w);
            }
        }
    }
}

/// The vertex where the segment `a -> b` crosses `plane`.
fn cut_at_plane(a: &ColorVertex, b: &ColorVertex, plane: u8) -> (r: ColorVertex)
    requires
        a.bounded(),
        b.bounded(),
        plane < 6,
        violates(a.position, plane as int) != violates(b.position, plane as int),
    ensures
        r == cut(*a, *b, plane as int),
        r.bounded(),
        !violates(r.position, plane as int),
        forall|q: int|
            0 <= q < 6 && #[trigger] violates(r.position, q) ==> violates(a.position, q) || violates(
                b.position,
                q,
            ),
{
    proof {
        lemma_cut(*a, *b, plane as int);
    }
    let f0 = plane_value_of(&a.position, plane);
    let f1 = plane_value_of(&b.position, plane);
    let (n, d) = if f0 < 0 {
        (-f0, f1 - f0)
    } else {
        (f0, f0 - f1)
    };
    let v = a.interpolate(b, n, d);
    proof {
        lemma_blend_exact(a.position, b.position, n as int, d as int);
    }
    let w = v.position.w;
    let position = if plane == LEFT || plane == BOTTOM || plane == FRONT {
        if plane == LEFT {
            Vec4 { x: -w, ..v.position }
        } else if plane == BOTTOM {
            Vec4 { y: -w, ..v.position }
        } else {
            Vec4 { z: -w, ..v.position }
        }
    } else {
        if plane == RIGHT {
            Vec4 { x: w, ..v.position }
        } else if plane == TOP {
            Vec4 { y: w, ..v.position }
        } else {
            Vec4 { z: w, ..v.position }
        }
    };
    ColorVertex { position, ..v }
}

/// Whether both positions violate a common plane.
pub open spec fn shares_plane(a: Vec4, b: Vec4) -> bool {
    exists|q: int| 0 <= q < 6 && #[trigger] violates(a, q) && violates(b, q)
}

pub open spec fn either_violates(a: Vec4, b: Vec4, q: int) -> bool {
    violates(a, q) || violates(b, q)
}

/// How many of the six planes at least one of the two positions violates.
pub open spec fn union_count(a: Vec4, b: Vec4) -> int {
    bit(either_violates(a, b, 0), 1) + bit(either_violates(a, b, 1), 1) + bit(
        either_violates(a, b, 2),
        1,
    ) + bit(either_violates(a, b, 3), 1) + bit(either_violates(a, b, 4), 1) + bit(
        either_violates(a, b, 5),
        1,
    )
}

/// One step of the line clipper: the end with the larger outcode moves to
/// where the line crosses the first plane that end violates.
pub open spec fn clip_step(a: ColorVertex, b: ColorVertex) -> (ColorVertex, ColorVertex) {
    let ca = outcode_of(a.position);
    let cb = outcode_of(b.position);
    if ca.value() > cb.value() {
        (cut(a, b, first_plane_of(ca)), b)
    } else {
        (a, cut(a, b, first_plane_of(cb)))
    }
}

/// Cohen-Sutherland clipping of the line `a -> b`, for at most `fuel` steps.
pub open spec fn clipped(a: ColorVertex, b: ColorVertex, fuel: nat) -> Option<Line<ColorVertex>>
    decreases fuel,
{
    if inside(a.position) && inside(b.position) {
        Some(Line(a, b))
    } else if shares_plane(a.position, b.position) {
        None
    } else if fuel == 0 {
        None
    } else {
        let (a2, b2) = clip_step(a, b);
        clipped(a2, b2, (fuel - 1) as nat)
    }
}

proof fn lemma_union_count(a: Vec4, b: Vec4)
    ensures
        0 <= union_count(a, b) <= 6,
        union_count(a, b) == 0 ==> inside(a) && inside(b),
{
    if union_count(a, b) == 0 {
        assert forall|q: int| 0 <= q < 6 implies !#[trigger] violates(a, q) by {
            assert(!either_violates(a, b, q));
        }
        assert forall|q: int| 0 <= q < 6 implies !#[trigger] violates(b, q) by {
            assert(!either_violates(a, b, q));
        }
    }
}

proof fn lemma_union_count_decreases(a: Vec4, b: Vec4, a2: Vec4, b2: Vec4, plane: int)
    requires
        forall|q: int|
            0 <= q < 6 && #[trigger] either_violates(a2, b2, q) ==> either_violates(a, b, q),
        0 <= plane < 6,
        either_violates(a, b, plane),
        !either_violates(a2, b2, plane),
    ensures
        union_count(a2, b2) < union_count(a, b),
{
    assert(either_violates(a2, b2, 0) ==> either_violates(a, b, 0));
    assert(either_violates(a2, b2, 1) ==> either_violates(a, b, 1));
    assert(either_violates(a2, b2, 2) ==> either_violates(a, b, 2));
    assert(either_violates(a2, b2, 3) ==> either_violates(a, b, 3));
    assert(either_violates(a2, b2, 4) ==> either_violates(a, b, 4));
    assert(either_violates(a2, b2, 5) ==> either_violates(a, b, 5));
}

proof fn lemma_code_inside(p: Vec4)
    ensures
        inside(p) == (forall|q: int| 0 <= q < 6 ==> !#[trigger] outcode_of(p).has(q)),
{
    lemma_outcode_has(p);
    if inside(p) {
        assert forall|q: int| 0 <= q < 6 implies !#[trigger] outcode_of(p).has(q) by {
            assert(!violates(p, q));
        }
    }
    if forall|q: int| 0 <= q < 6 ==> !#[trigger] outcode_of(p).has(q) {
        assert forall|q: int| 0 <= q < 6 implies !#[trigger] violates(p, q) by {
            assert(!outcode_of(p).has(q));
        }
    }
}

proof fn lemma_code_shares(a: Vec4, b: Vec4)
    ensures
        shares_plane(a, b) == (exists|q: int|
            0 <= q < 6 && #[trigger] outcode_of(a).has(q) && outcode_of(b).has(q)),
{
    lemma_outcode_has(a);
    lemma_outcode_has(b);
    if shares_plane(a, b) {
        let q = choose|q: int| 0 <= q < 6 && #[trigger] violates(a, q) && violates(b, q);
        assert(outcode_of(a).has(q) && outcode_of(b).has(q));
    }
    if exists|q: int| 0 <= q < 6 && #[trigger] outcode_of(a).has(q) && outcode_of(b).has(q) {
        let q = choose|q: int| 0 <= q < 6 && #[trigger] outcode_of(a).has(q) && outcode_of(b).has(q);
        assert(violates(a, q) && violates(b, q));
    }
}

/// One step of the line clipper, on a line that is neither accepted nor
/// rejected yet.
fn advance(e0: &ColorVertex, e1: &ColorVertex, code0: &OutCode, code1: &OutCode) -> (r: (
    ColorVertex,
    ColorVertex,
))
    requires
        e0.bounded(),
        e1.bounded(),
        *code0 == outcode_of(e0.position),
        *code1 == outcode_of(e1.position),
        !(inside(e0.position) && inside(e1.position)),
        !shares_plane(e0.position, e1.position),
    ensures
        r == clip_step(*e0, *e1),
        r.0.bounded(),
        r.1.bounded(),
        union_count(r.0.position, r.1.position) < union_count(e0.position, e1.position),
{
    proof {
        lemma_outcode_has(e0.position);
        lemma_outcode_has(e1.position);
        lemma_code_inside(e0.position);
        lemma_code_inside(e1.position);
        lemma_code_shares(e0.position, e1.position);
    }
    if code0.bits() > code1.bits() {
        let p = code0.first_plane();
        let c = cut_at_plane(e0, e1, p);
        proof {
            lemma_union_count_decreases(e0.position, e1.position, c.position, e1.position, p as int);
        }
        (c, *e1)
    } else {
        proof {
            if !code1.right && !code1.left && !code1.top && !code1.bottom && !code1.back
                && !code1.front {
                assert(!code0.left && !code0.right && !code0.bottom && !code0.top && !code0.front
                    && !code0.back);
                assert(code1.value() == 0);
                assert(forall|q: int| 0 <= q < 6 ==> !#[trigger] code0.has(q));
                assert(forall|q: int| 0 <= q < 6 ==> !#[trigger] code1.has(q));
                assert(false);
            }
        }
        let p = code1.first_plane();
        let c = cut_at_plane(e0, e1, p);
        proof {
            lemma_union_count_decreases(e0.position, e1.position, e0.position, c.position, p as int);
        }
        (*e0, c)
    }
}

/// Clips a line against the unit view frustum.
///
/// Accepts the line unchanged when both ends are inside, rejects it when
/// both ends violate a common plane, and otherwise moves an outside end
/// onto the first plane it violates and tries again.
pub fn clip_line(line: Line<ColorVertex>) -> (r: Option<Line<ColorVertex>>)
    requires
        line.0.bounded(),
        line.1.bounded(),
    ensures
        r == clipped(line.0, line.1, 6),
        r matches Some(l) ==> inside(l.0.position) && inside(l.1.position) && l.0.bounded()
            && l.1.bounded(),
        inside(line.0.position) && inside(line.1.position) ==> r == Some(line),
        shares_plane(line.0.position, line.1.position) ==> r is None,
{
    let Line(mut e0, mut e1) = line;
    let mut code0 = compute_outcode(e0.position);
    let mut code1 = compute_outcode(e1.position);
    let ghost mut fuel: nat = 6;
    proof {
        lemma_union_count(e0.position, e1.position);
    }
    loop
        invariant
            e0.bounded(),
            e1.bounded(),
            code0 == outcode_of(e0.position),
            code1 == outcode_of(e1.position),
            clipped(e0, e1, fuel) == clipped(line.0, line.1, 6),
            union_count(e0.position, e1.position) <= fuel,
        decreases fuel,
    {
        proof {
            lemma_code_inside(e0.position);
            lemma_code_inside(e1.position);
            lemma_code_shares(e0.position, e1.position);
            lemma_union_count(e0.position, e1.position);
        }
        if code0.is_inside() && code1.is_inside() {
            return Some(Line(e0, e1));
        }
        if code0.shares(&code1) {
            return None;
        }
        let (n0, n1) = advance(&e0, &e1, &code0, &code1);
        e0 = n0;
        e1 = n1;
        code0 = compute_outcode(e0.position);
        code1 = compute_outcode(e1.position);
        proof {
            fuel = (fuel - 1) as nat;
        }
    }
}

/// What near-plane clipping leaves of a triangle.
#[derive(Clone, Copy, Debug, PartialEq, Eq)]
pub enum ClippedTriangle<T> {
    Empty,
    One(Triangle<T>),
    Two(Triangle<T>, Triangle<T>),
}

/// Whether all three vertices violate one common plane.
pub open spec fn outside_one_plane(t: Triangle<ColorVertex>) -> bool {
    exists|q: int|
        0 <= q < 6 && #[trigger] violates(t.0.position, q) && violates(t.1.position, q) && violates(
            t.2.position,
            q,
        )
}

/// Whether a vertex lies in front of the near plane (`z < -w`).
pub open spec fn near_offender(v: ColorVertex) -> bool {
    violates(v.position, FRONT as int)
}

/// One offender `o`, the others `p` and `q` in winding order: two triangles.
pub open spec fn split_one(o: ColorVertex, p: ColorVertex, q: ColorVertex) -> ClippedTriangle<
    ColorVertex,
> {
    let a = cut(o, p, FRONT as int);
    let b = cut(o, q, FRONT as int);
    ClippedTriangle::Two(Triangle(a, p, q), Triangle(b, a, q))
}

/// Two offenders `a` and `b`, the survivor `s` after them in winding order:
/// one triangle.
pub open spec fn split_two(a: ColorVertex, b: ColorVertex, s: ColorVertex) -> ClippedTriangle<
    ColorVertex,
> {
    ClippedTriangle::One(Triangle(cut(a, s, FRONT as int), cut(b, s, FRONT as int), s))
}

/// The pieces that cutting a triangle at the near plane gives, before any
/// is dropped: the vertices keep their cyclic order.
pub open spec fn near_pieces(t: Triangle<ColorVertex>) -> ClippedTriangle<ColorVertex> {
    let o0 = near_offender(t.0);
    let o1 = near_offender(t.1);
    let o2 = near_offender(t.2);
    if outside_one_plane(t) {
        ClippedTriangle::Empty
    } else if !o0 && !o1 && !o2 {
        ClippedTriangle::One(t)
    } else if o0 && !o1 && !o2 {
        split_one(t.0, t.1, t.2)
    } else if !o0 && o1 && !o2 {
        split_one(t.1, t.2, t.0)
    } else if !o0 && !o1 && o2 {
        split_one(t.2, t.0, t.1)
    } else if o0 && o1 {
        split_two(t.0, t.1, t.2)
    } else if o1 && o2 {
        split_two(t.1, t.2, t.0)
    } else {
        split_two(t.2, t.0, t.1)
    }
}

/// Every vertex is bounded and on the inner side of the near plane.
pub open spec fn near_clean(t: Triangle<ColorVertex>) -> bool {
    &&& t.0.bounded() && t.1.bounded() && t.2.bounded()
    &&& !near_offender(t.0) && !near_offender(t.1) && !near_offender(t.2)
}

pub open spec fn all_near_clean(c: ClippedTriangle<ColorVertex>) -> bool {
    match c {
        ClippedTriangle::Empty => true,
        ClippedTriangle::One(t) => near_clean(t),
        ClippedTriangle::Two(t1, t2) => near_clean(t1) && near_clean(t2),
    }
}

fn split_one_vertex(o: &ColorVertex, p: &ColorVertex, q: &ColorVertex) -> (r: ClippedTriangle<
    ColorVertex,
>)
    requires
        o.bounded(),
        p.bounded(),
        q.bounded(),
        near_offender(*o),
        !near_offender(*p),
        !near_offender(*q),
    ensures
        r == split_one(*o, *p, *q),
        all_near_clean(r),
{
    let a = cut_at_plane(o, p, FRONT);
    let b = cut_at_plane(o, q, FRONT);
    ClippedTriangle::Two(Triangle(a, *p, *q), Triangle(b, a, *q))
}

fn split_two_vertices(a: &ColorVertex, b: &ColorVertex, s: &ColorVertex) -> (r: ClippedTriangle<
    ColorVertex,
>)
    requires
        a.bounded(),
        b.bounded(),
        s.bounded(),
        near_offender(*a),
        near_offender(*b),
        !near_offender(*s),
    ensures
        r == split_two(*a, *b, *s),
        all_near_clean(r),
{
    let a2 = cut_at_plane(a, s, FRONT);
    let b2 = cut_at_plane(b, s, FRONT);
    ClippedTriangle::One(Triangle(a2, b2, *s))
}

/// Cuts a triangle at the near plane, keeping every piece.
fn split_at_near_plane(triangle: Triangle<ColorVertex>) -> (r: ClippedTriangle<ColorVertex>)
    requires
        triangle.0.bounded(),
        triangle.1.bounded(),
        triangle.2.bounded(),
    ensures
        r == near_pieces(triangle),
        all_near_clean(r),
{
    let c0 = compute_outcode(triangle.0.position);
    let c1 = compute_outcode(triangle.1.position);
    let c2 = compute_outcode(triangle.2.position);
    let common = OutCode {
        left: c0.left && c1.left && c2.left,
        right: c0.right && c1.right && c2.right,
        bottom: c0.bottom && c1.bottom && c2.bottom,
        top: c0.top && c1.top && c2.top,
        front: c0.front && c1.front && c2.front,
        back: c0.back && c1.back && c2.back,
    };
    proof {
        lemma_outcode_has(triangle.0.position);
        lemma_outcode_has(triangle.1.position);
        lemma_outcode_has(triangle.2.position);
        if outside_one_plane(triangle) {
            let q = choose|q: int|
                0 <= q < 6 && #[trigger] violates(triangle.0.position, q) && violates(
                    triangle.1.position,
                    q,
                ) && violates(triangle.2.position, q);
            assert(common.has(q));
        }
    }
    let inside_all = common.is_inside();
    proof {
        if !inside_all {
            let q = choose|q: int| 0 <= q < 6 && #[trigger] common.has(q);
            assert(violates(triangle.0.position, q));
        }
    }
    if !inside_all {
        return ClippedTriangle::Empty;
    }
    let o0 = c0.front;
    let o1 = c1.front;
    let o2 = c2.front;
    if !o0 && !o1 && !o2 {
        ClippedTriangle::One(triangle)
    } else if o0 && !o1 && !o2 {
        split_one_vertex(&triangle.0, &triangle.1, &triangle.2)
    } else if !o0 && o1 && !o2 {
        split_one_vertex(&triangle.1, &triangle.2, &triangle.0)
    } else if !o0 && !o1 && o2 {
        split_one_vertex(&triangle.2, &triangle.0, &triangle.1)
    } else if o0 && o1 {
        split_two_vertices(&triangle.0, &triangle.1, &triangle.2)
    } else if o1 && o2 {
        split_two_vertices(&triangle.1, &triangle.2, &triangle.0)
    } else {
        split_two_vertices(&triangle.2, &triangle.0, &triangle.1)
    }
}

/// The winding order of a triangle's positions after the perspective divide.
pub open spec fn winding(t: Triangle<ColorVertex>) -> WindingOrder {
    winding_of(t.0.position, t.1.position, t.2.position)
}

/// The pieces whose winding order is `w`, in order.
pub open spec fn keep_wound(c: ClippedTriangle<ColorVertex>, w: WindingOrder) -> ClippedTriangle<ColorVertex> {
    match c {
        ClippedTriangle::Empty => ClippedTriangle::Empty,
        ClippedTriangle::One(a) => if winding(a) == w {
            ClippedTriangle::One(a)
        } else {
            ClippedTriangle::Empty
        },
        ClippedTriangle::Two(a, b) => if winding(a) == w && winding(b) == w {
            ClippedTriangle::Two(a, b)
        } else if winding(a) == w {
            ClippedTriangle::One(a)
        } else if winding(b) == w {
            ClippedTriangle::One(b)
        } else {
            ClippedTriangle::Empty
        },
    }
}

/// Every piece has winding order `w`.
pub open spec fn all_wound(c: ClippedTriangle<ColorVertex>, w: WindingOrder) -> bool {
    match c {
        ClippedTriangle::Empty => true,
        ClippedTriangle::One(a) => winding(a) == w,
        ClippedTriangle::Two(a, b) => winding(a) == w && winding(b) == w,
    }
}

/// Near-plane clipping of a triangle that keeps its winding order: the
/// near pieces, less any piece whose corners, rounded to the integer grid,
/// no longer wind as the triangle does. A degenerate triangle keeps all
/// its pieces.
pub open spec fn clipped_triangle(t: Triangle<ColorVertex>) -> ClippedTriangle<ColorVertex> {
    if winding(t) == WindingOrder::Degenerate {
        near_pieces(t)
    } else {
        keep_wound(near_pieces(t), winding(t))
    }
}

/// Clips a triangle against the near plane.
///
/// A triangle whose three vertices violate one common plane is rejected.
/// Otherwise each vertex in front of the near plane is moved along its
/// edges onto it: one such vertex gives two triangles, two give one. Every
/// triangle returned keeps the input's vertex order and, unless the input
/// is degenerate, its winding order: a piece that rounding to the integer
/// grid has made degenerate or reversed is dropped.
pub fn clip_triangle(triangle: Triangle<ColorVertex>) -> (r: ClippedTriangle<ColorVertex>)
    requires
        triangle.0.bounded(),
        triangle.1.bounded(),
        triangle.2.bounded(),
    ensures
        r == clipped_triangle(triangle),
        all_near_clean(r),
        winding(triangle) != WindingOrder::Degenerate ==> all_wound(r, winding(triangle)),
{
    let w = triangle.get_winding();
    let pieces = split_at_near_plane(triangle);
    if w == WindingOrder::Degenerate {
        return pieces;
    }
    match pieces {
        ClippedTriangle::Empty => ClippedTriangle::Empty,
        ClippedTriangle::One(a) => {
            if a.get_winding() == w {
                ClippedTriangle::One(a)
            } else {
                ClippedTriangle::Empty
            }
        },
        ClippedTriangle::Two(a, b) => {
            let wa = a.get_winding() == w;
            let wb = b.get_winding() == w;
            if wa && wb {
                ClippedTriangle::Two(a, b)
            } else if wa {
                ClippedTriangle::One(a)
            } else if wb {
                ClippedTriangle::One(b)
            } else {
                ClippedTriangle::Empty
            }
        },
    }
}

/// Clipping keeps the winding order: every triangle that near-plane
/// clipping returns for a non-degenerate triangle winds as that triangle
/// does, so culling before clipping and culling after agree.
pub proof fn law_clip_keeps_winding(t: Triangle<ColorVertex>)
    requires
        winding(t) != WindingOrder::Degenerate,
    ensures
        all_wound(clipped_triangle(t), winding(t)),
{
}

} // verus!
