//! The pipeline driver: vertex stage, primitive assembly, culling and
//! clipping, the perspective divide and viewport map, rasterization, and
//! the depth-tested fragment stage.
use vstd::prelude::*;
use crate::clipping::{clip_line, clip_triangle, clipped, clipped_triangle, ClippedTriangle};
use crate::primitives::{lemma_swap_reverses_winding, winding_of, Line, Triangle, WindingOrder};
use crate::raster::{
    between, first_pixel, interpolate_screen, pixel_span, screen_blend, screen_of, span_of,
    to_screen_coords,
    ScreenVertex, HALF_PIXEL, SUBPIXEL,
};
use crate::target::{Color, RenderTarget};
use crate::vertex::{negated, ColorVertex, Vec4};

verus! {

/// The pair of shader functions installed on a pipeline.
///
/// Both stages are functions of their input: `vertex_fn` and `fragment_fn`
/// name what they compute.
pub trait Effect {
    spec fn vertex_fn(&self, input: ColorVertex) -> ColorVertex;

    spec fn fragment_fn(&self, input: ColorVertex) -> Color;

    /// The vertex stage: produces a clip-space vertex.
    fn vs(&self, input: &ColorVertex) -> (r: ColorVertex)
        ensures
            r == self.vertex_fn(*input),
    ;

    /// The fragment stage: the colour of an interpolated vertex.
    fn ps(&self, input: &ColorVertex) -> (r: Color)
        ensures
            r == self.fragment_fn(*input),
    ;
}

/// How triangles are drawn.
#[derive(Clone, Copy, Debug, PartialEq, Eq, Structural)]
pub enum FillMode {
    Solid,
    Wireframe,
}

/// A software implementation of a raster graphics pipeline.
pub struct Pipeline<E: Effect> {
    pub fill_mode: FillMode,
    /// The winding order that survives back-face culling: counter-clockwise
    /// or clockwise. Degenerate triangles are always culled, so a
    /// `Degenerate` front face keeps no triangle.
    pub front_face: WindingOrder,
    pub effect: E,
}

/// The record handed to the fragment stage for a pixel: its position, its
/// depth, and its colour divided back by the interpolated `1 / w`.
pub open spec fn shading_input(x: int, y: int, it: ScreenVertex) -> ColorVertex {
    ColorVertex {
        position: Vec4 { x: x as i64, y: y as i64, z: it.depth, w: 1 },
        color: Vec4 {
            x: (it.color.x as int / it.inv_w as int) as i64,
            y: (it.color.y as int / it.inv_w as int) as i64,
            z: (it.color.z as int / it.inv_w as int) as i64,
            w: (it.color.w as int / it.inv_w as int) as i64,
        },
    }
}

/// Where an edge `e0 -> e1` from row `top` to row `bottom` crosses the
/// centre line of pixel row `y`.
pub open spec fn row_edge(e0: ScreenVertex, e1: ScreenVertex, top: int, bottom: int, y: int) -> ScreenVertex {
    screen_blend(e0, e1, SUBPIXEL * y + HALF_PIXEL - top, bottom - top)
}

/// The interpolant at the centre of pixel `x` of the span from `a` to `b`.
pub open spec fn span_fragment(a: ScreenVertex, b: ScreenVertex, x: int) -> ScreenVertex {
    screen_blend(a, b, SUBPIXEL * x + HALF_PIXEL - a.x, b.x - a.x)
}

/// A flat triangle half: left edge `.0 -> .1`, right edge `.2 -> .3`, from
/// the row of `.0` down to the row of `.1`.
pub type FlatHalf = (ScreenVertex, ScreenVertex, ScreenVertex, ScreenVertex);

pub open spec fn half_left(f: FlatHalf, y: int) -> ScreenVertex {
    row_edge(f.0, f.1, f.0.y as int, f.1.y as int, y)
}

pub open spec fn half_right(f: FlatHalf, y: int) -> ScreenVertex {
    row_edge(f.2, f.3, f.0.y as int, f.1.y as int, y)
}

/// A rasterized fragment: a pixel `(x, y)` and the interpolated record there.
pub type Fragment = (int, int, ScreenVertex);

/// The depth and colour of pixel `(x, y)`, from `start`, after `frags` go
/// through the depth test in order: a fragment at `(x, y)` nearer than the
/// depth so far sets the depth, and the colour the fragment stage gives its
/// perspective-corrected record.
pub open spec fn pixel_after<E: Effect>(
    e: E,
    start: (i64, Color),
    frags: Seq<Fragment>,
    x: int,
    y: int,
) -> (i64, Color)
    decreases frags.len(),
{
    if frags.len() == 0 {
        start
    } else {
        let prev = pixel_after(e, start, frags.drop_last(), x, y);
        let f = frags.last();
        if f.0 == x && f.1 == y && f.2.depth < prev.0 {
            (f.2.depth, e.fragment_fn(shading_input(x, y, f.2)))
        } else {
            prev
        }
    }
}

/// `after` is `before` with the fragments `frags` drawn in order: every
/// pixel, reached or not, holds the depth and colour that `pixel_after`
/// gives it.
pub open spec fn rendered<B: RenderTarget, E: Effect>(e: E, before: B, after: B, frags: Seq<Fragment>) -> bool {
    &&& after.width() == before.width()
    &&& after.height() == before.height()
    &&& forall|x: int, y: int|
        #![trigger after.depth_at(x, y)]
        #![trigger after.color_at(x, y)]
        after.depth_at(x, y) == pixel_after(
            e,
            (before.depth_at(x, y), before.color_at(x, y)),
            frags,
            x,
            y,
        ).0 && after.color_at(x, y) == pixel_after(
            e,
            (before.depth_at(x, y), before.color_at(x, y)),
            frags,
            x,
            y,
        ).1
}

pub proof fn lemma_pixel_after_concat<E: Effect>(
    e: E,
    start: (i64, Color),
    a: Seq<Fragment>,
    b: Seq<Fragment>,
    x: int,
    y: int,
)
    ensures
        pixel_after(e, start, a + b, x, y) == pixel_after(e, pixel_after(e, start, a, x, y), b, x, y),
    decreases b.len(),
{
    if b.len() == 0 {
        assert(a + b =~= a);
    } else {
        assert((a + b).drop_last() =~= a + b.drop_last());
        assert((a + b).last() == b.last());
        lemma_pixel_after_concat(e, start, a, b.drop_last(), x, y);
    }
}

proof fn lemma_rendered_empty<B: RenderTarget, E: Effect>(e: E, t: B)
    ensures
        rendered(e, t, t, seq![]),
{
}

proof fn lemma_rendered_trans<B: RenderTarget, E: Effect>(
    e: E,
    s0: B,
    s1: B,
    s2: B,
    a: Seq<Fragment>,
    b: Seq<Fragment>,
)
    requires
        rendered(e, s0, s1, a),
        rendered(e, s1, s2, b),
    ensures
        rendered(e, s0, s2, a + b),
{
    assert forall|x: int, y: int|
        #![trigger s2.depth_at(x, y)]
        #![trigger s2.color_at(x, y)]
        s2.depth_at(x, y) == pixel_after(e, (s0.depth_at(x, y), s0.color_at(x, y)), a + b, x, y).0
            && s2.color_at(x, y) == pixel_after(
            e,
            (s0.depth_at(x, y), s0.color_at(x, y)),
            a + b,
            x,
            y,
        ).1 by {
        assert(s1.depth_at(x, y) == pixel_after(e, (s0.depth_at(x, y), s0.color_at(x, y)), a, x, y).0);
        assert(s1.color_at(x, y) == pixel_after(e, (s0.depth_at(x, y), s0.color_at(x, y)), a, x, y).1);
        lemma_pixel_after_concat(e, (s0.depth_at(x, y), s0.color_at(x, y)), a, b, x, y);
    }
}

/// The fragments of one scanline at row `y`: each pixel `x` whose centre
/// lies in `[a.x, b.x)`, cut to `[0, width)`, left to right, with the
/// record interpolated between `a` and `b`.
pub open spec fn span_frags(a: ScreenVertex, b: ScreenVertex, width: int, y: int) -> Seq<Fragment> {
    let (s, e) = pixel_span(a.x as int, b.x as int, width);
    span_prefix(a, b, y, s, if e > s {
        (e - s) as nat
    } else {
        0
    })
}

pub open spec fn span_prefix(a: ScreenVertex, b: ScreenVertex, y: int, s: int, n: nat) -> Seq<Fragment> {
    Seq::new(n, |i: int| (s + i, y, span_fragment(a, b, s + i)))
}

/// The fragments of the first `n` rows of a flat half from row `y0` on.
pub open spec fn rows_frags(f: FlatHalf, width: int, y0: int, n: nat) -> Seq<Fragment>
    decreases n,
{
    if n == 0 {
        seq![]
    } else {
        let y = y0 + n - 1;
        rows_frags(f, width, y0, (n - 1) as nat) + span_frags(half_left(f, y), half_right(f, y), width, y)
    }
}

/// The fragments of a flat half: the rows whose centres lie between its
/// top and its bottom, cut to `[0, height)`, top to bottom.
pub open spec fn half_frags(f: FlatHalf, width: int, height: int) -> Seq<Fragment> {
    let (s, e) = pixel_span(f.0.y as int, f.1.y as int, height);
    rows_frags(f, width, s, if e > s {
        (e - s) as nat
    } else {
        0
    })
}

/// The fragments of the one or two flat halves of a solid triangle.
pub open spec fn halves_frags(hs: Seq<FlatHalf>, width: int, height: int) -> Seq<Fragment> {
    if hs.len() == 0 {
        seq![]
    } else if hs.len() == 1 {
        half_frags(hs[0], width, height)
    } else {
        half_frags(hs[0], width, height) + half_frags(hs[1], width, height)
    }
}

pub open spec fn sorted_by_y(t: Triangle<ScreenVertex>) -> (ScreenVertex, ScreenVertex, ScreenVertex) {
    let (a, b) = if t.0.y > t.1.y {
        (t.1, t.0)
    } else {
        (t.0, t.1)
    };
    let (b, c) = if b.y > t.2.y {
        (t.2, b)
    } else {
        (b, t.2)
    };
    let (a, b) = if a.y > b.y {
        (b, a)
    } else {
        (a, b)
    };
    (a, b, c)
}

/// The flat halves that a solid triangle is filled as: a natural flat top
/// or flat bottom, or else a flat bottom and a flat top split on the major
/// edge at the height of the middle vertex.
pub open spec fn solid_halves(t: Triangle<ScreenVertex>) -> Seq<FlatHalf> {
    let (v0, v1, v2) = sorted_by_y(t);
    if v0.y == v1.y {
        let (a, b) = if v0.x > v1.x {
            (v1, v0)
        } else {
            (v0, v1)
        };
        seq![(a, v2, b, v2)]
    } else if v1.y == v2.y {
        let (b, c) = if v1.x > v2.x {
            (v2, v1)
        } else {
            (v1, v2)
        };
        seq![(v0, b, v0, c)]
    } else {
        let vi = screen_blend(v0, v2, v1.y - v0.y, v2.y - v0.y);
        if v1.x < vi.x {
            seq![(v0, v1, v0, vi), (v1, v2, vi, v2)]
        } else {
            seq![(v0, vi, v0, v1), (vi, v2, v1, v2)]
        }
    }
}

fn recover_channel(c: i64, inv_w: i64) -> (r: i64)
    requires
        inv_w >= 1,
    ensures
        r == c as int / inv_w as int,
{
    proof {
        crate::vertex::lemma_scaled_between(c as int, 1, inv_w as int);
        assert(c * 1 == c);
    }
    match c.checked_div_euclid(inv_w) {
        Some(q) => q,
        None => 0,
    }
}

/// Recovers the perspective-correct record of a pixel from its
/// interpolant.
pub fn shading_input_of(x: u32, y: u32, it: &ScreenVertex) -> (r: ColorVertex)
    requires
        it.bounded(),
    ensures
        r == shading_input(x as int, y as int, *it),
{
    ColorVertex {
        position: Vec4 { x: x as i64, y: y as i64, z: it.depth, w: 1 },
        color: Vec4 {
            x: recover_channel(it.color.x, it.inv_w),
            y: recover_channel(it.color.y, it.inv_w),
            z: recover_channel(it.color.z, it.inv_w),
            w: recover_channel(it.color.w, it.inv_w),
        },
    }
}

/// The pixel that contains a sub-pixel position: `floor(a / SUBPIXEL)`.
fn pixel_of(a: i64) -> (r: i64)
    ensures
        r == a as int / SUBPIXEL as int,
{
    proof {
        crate::vertex::lemma_scaled_between(a as int, 1, SUBPIXEL as int);
        assert(a * 1 == a);
    }
    match a.checked_div_euclid(SUBPIXEL) {
        Some(q) => q,
        None => 0,
    }
}

/// A clip-space triangle mapped onto a `width x height` screen.
pub open spec fn screen_triangle(t: Triangle<ColorVertex>, width: int, height: int) -> Triangle<ScreenVertex> {
    Triangle(screen_of(t.0, width, height), screen_of(t.1, width, height), screen_of(t.2, width, height))
}

/// No vertex is at `w == 0`, so the perspective divide applies to each.
pub open spec fn divisible(t: Triangle<ColorVertex>) -> bool {
    t.0.position.w != 0 && t.1.position.w != 0 && t.2.position.w != 0
}

/// A vertex with `w > 0` that the divide maps where it maps `v`: `v`
/// itself, or its negation when `w < 0`.
pub open spec fn facing(v: ColorVertex) -> ColorVertex {
    if v.position.w < 0 {
        negated(v)
    } else {
        v
    }
}

pub open spec fn facing_triangle(t: Triangle<ColorVertex>) -> Triangle<ColorVertex> {
    Triangle(facing(t.0), facing(t.1), facing(t.2))
}

/// The triangles that near-plane clipping leaves.
pub open spec fn clip_outputs(c: ClippedTriangle<ColorVertex>) -> Seq<Triangle<ColorVertex>> {
    match c {
        ClippedTriangle::Empty => seq![],
        ClippedTriangle::One(a) => seq![a],
        ClippedTriangle::Two(a, b) => seq![a, b],
    }
}

pub open spec fn dda_steps(a: ScreenVertex, b: ScreenVertex) -> int {
    let dx = if b.x >= a.x {
        b.x - a.x
    } else {
        a.x - b.x
    };
    let dy = if b.y >= a.y {
        b.y - a.y
    } else {
        a.y - b.y
    };
    if dx > dy {
        dx
    } else {
        dy
    }
}

/// Sample `i` of the DDA from `a` to `b`, `i` pixels along the longer axis.
pub open spec fn dda_sample(a: ScreenVertex, b: ScreenVertex, i: int) -> ScreenVertex {
    screen_blend(a, b, SUBPIXEL * i, dda_steps(a, b))
}

/// The pixel that holds a sub-pixel position.
pub open spec fn pixel_at(v: int) -> int {
    v / SUBPIXEL as int
}

/// The number of DDA samples from `a` to `b`: one per pixel along the
/// longer axis, the last end left out.
pub open spec fn dda_count(a: ScreenVertex, b: ScreenVertex) -> int {
    (dda_steps(a, b) + SUBPIXEL - 1) / (SUBPIXEL as int)
}

/// The fragments of the first `n` DDA samples from `a` to `b` that fall on
/// a `width x height` target, at the pixel that holds each sample.
pub open spec fn dda_prefix(a: ScreenVertex, b: ScreenVertex, width: int, height: int, n: nat) -> Seq<Fragment>
    decreases n,
{
    if n == 0 {
        seq![]
    } else {
        let prev = dda_prefix(a, b, width, height, (n - 1) as nat);
        let s = dda_sample(a, b, n - 1);
        let px = pixel_at(s.x as int);
        let py = pixel_at(s.y as int);
        if 0 <= px < width && 0 <= py < height {
            prev.push((px, py, s))
        } else {
            prev
        }
    }
}

/// The fragments of the line from `a` (included) to `b` (excluded).
pub open spec fn line_frags(a: ScreenVertex, b: ScreenVertex, width: int, height: int) -> Seq<Fragment> {
    dda_prefix(a, b, width, height, dda_count(a, b) as nat)
}

/// Lines assembled from index pairs into `vertices`.
pub open spec fn assemble_lines(vertices: Seq<ColorVertex>, primitives: Seq<Line<usize>>) -> Seq<Line<ColorVertex>> {
    Seq::new(primitives.len(), |k: int| Line(vertices[primitives[k].0 as int], vertices[primitives[k].1 as int]))
}

/// Triangles assembled from index triples into `vertices`.
pub open spec fn assemble_triangles(vertices: Seq<ColorVertex>, primitives: Seq<Triangle<usize>>) -> Seq<Triangle<ColorVertex>> {
    Seq::new(
        primitives.len(),
        |k: int|
            Triangle(
                vertices[primitives[k].0 as int],
                vertices[primitives[k].1 as int],
                vertices[primitives[k].2 as int],
            ),
    )
}

proof fn lemma_pixel_after_one<E: Effect>(e: E, start: (i64, Color), f: Fragment, x: int, y: int)
    ensures
        pixel_after(e, start, seq![f], x, y) == if f.0 == x && f.1 == y && f.2.depth < start.0 {
            (f.2.depth, e.fragment_fn(shading_input(x, y, f.2)))
        } else {
            start
        },
{
    let s = seq![f];
    assert(s.drop_last() =~= Seq::<Fragment>::empty());
    assert(pixel_after(e, start, s.drop_last(), x, y) == start);
}

/// The vertices of a screen triangle ordered by `y` with three swaps.
fn sort_by_y(t: &Triangle<ScreenVertex>) -> (r: (ScreenVertex, ScreenVertex, ScreenVertex))
    ensures
        r == sorted_by_y(*t),
{
    let mut v0 = t.0;
    let mut v1 = t.1;
    let mut v2 = t.2;
    if v0.y > v1.y {
        let tmp = v0;
        v0 = v1;
        v1 = tmp;
    }
    if v1.y > v2.y {
        let tmp = v1;
        v1 = v2;
        v2 = tmp;
    }
    if v0.y > v1.y {
        let tmp = v0;
        v0 = v1;
        v1 = tmp;
    }
    (v0, v1, v2)
}

/// The vertex itself when `w > 0`, its negation when `w < 0`.
fn facing_vertex(v: &ColorVertex) -> (r: ColorVertex)
    requires
        v.bounded(),
        v.position.w != 0,
    ensures
        r == facing(*v),
        r.bounded(),
        r.position.w > 0,
{
    if v.position.w < 0 {
        v.negate_position()
    } else {
        *v
    }
}

impl<E: Effect> Pipeline<E> {
    /// The fragments a screen triangle is drawn as: its flat halves under
    /// solid fill, its three edges in wireframe.
    pub open spec fn triangle_frags(&self, t: Triangle<ScreenVertex>, width: int, height: int) -> Seq<Fragment> {
        match self.fill_mode {
            FillMode::Solid => halves_frags(solid_halves(t), width, height),
            FillMode::Wireframe => line_frags(t.0, t.1, width, height) + line_frags(t.1, t.2, width, height)
                + line_frags(t.2, t.0, width, height),
        }
    }

    /// The fragments of a clipped triangle: each vertex is divided by its
    /// own `w` and mapped to the screen, and the triangle of the three
    /// mapped points is drawn. A vertex with `w < 0` is mapped through its
    /// negation, which the divide sends to the same point. With a vertex at
    /// `w == 0` the divide is undefined and nothing is drawn.
    pub open spec fn piece_frags(&self, t: Triangle<ColorVertex>, width: int, height: int) -> Seq<Fragment> {
        if divisible(t) {
            self.triangle_frags(screen_triangle(facing_triangle(t), width, height), width, height)
        } else {
            seq![]
        }
    }

    pub open spec fn pieces_frags(&self, ts: Seq<Triangle<ColorVertex>>, width: int, height: int) -> Seq<Fragment> {
        if ts.len() == 0 {
            seq![]
        } else if ts.len() == 1 {
            self.piece_frags(ts[0], width, height)
        } else {
            self.piece_frags(ts[0], width, height) + self.piece_frags(ts[1], width, height)
        }
    }

    /// The fragments of a clip-space triangle: none when a coordinate is out
    /// of range or the triangle is culled, else those of each triangle that
    /// near-plane clipping leaves, in order.
    pub open spec fn processed_triangle_frags(&self, t: Triangle<ColorVertex>, width: int, height: int) -> Seq<Fragment> {
        if !(t.0.bounded() && t.1.bounded() && t.2.bounded()) || culled(
            winding_of(t.0.position, t.1.position, t.2.position),
            self.front_face,
        ) {
            seq![]
        } else {
            self.pieces_frags(clip_outputs(clipped_triangle(t)), width, height)
        }
    }

    /// The fragments of a clip-space line: none when a coordinate is out of
    /// range, the clipper rejects it, or an end of the clipped line has
    /// `w == 0` (inside the frustum `w` is never negative); else those of
    /// its screen image.
    pub open spec fn processed_line_frags(&self, line: Line<ColorVertex>, width: int, height: int) -> Seq<Fragment> {
        if !(line.0.bounded() && line.1.bounded()) {
            seq![]
        } else {
            match clipped(line.0, line.1, 6) {
                None => seq![],
                Some(l) => if l.0.position.w > 0 && l.1.position.w > 0 {
                    line_frags(screen_of(l.0, width, height), screen_of(l.1, width, height), width, height)
                } else {
                    seq![]
                },
            }
        }
    }

    /// A line after the vertex stage.
    pub open spec fn staged_line(&self, l: Line<ColorVertex>) -> Line<ColorVertex> {
        Line(self.effect.vertex_fn(l.0), self.effect.vertex_fn(l.1))
    }

    /// A triangle after the vertex stage.
    pub open spec fn staged_triangle(&self, t: Triangle<ColorVertex>) -> Triangle<ColorVertex> {
        Triangle(self.effect.vertex_fn(t.0), self.effect.vertex_fn(t.1), self.effect.vertex_fn(t.2))
    }

    /// The fragments of the first `n` lines, each after the vertex stage.
    pub open spec fn lines_frags(&self, ls: Seq<Line<ColorVertex>>, n: nat, width: int, height: int) -> Seq<Fragment>
        decreases n,
    {
        if n == 0 {
            seq![]
        } else {
            self.lines_frags(ls, (n - 1) as nat, width, height) + self.processed_line_frags(
                self.staged_line(ls[n - 1]),
                width,
                height,
            )
        }
    }

    /// The fragments of the first `n` triangles, each after the vertex stage.
    pub open spec fn triangles_frags(&self, ts: Seq<Triangle<ColorVertex>>, n: nat, width: int, height: int) -> Seq<Fragment>
        decreases n,
    {
        if n == 0 {
            seq![]
        } else {
            self.triangles_frags(ts, (n - 1) as nat, width, height) + self.processed_triangle_frags(
                self.staged_triangle(ts[n - 1]),
                width,
                height,
            )
        }
    }

    /// A pipeline with solid fill that keeps counter-clockwise triangles.
    pub fn new(effect: E) -> (r: Self)
        ensures
            r.fill_mode == FillMode::Solid,
            r.front_face == WindingOrder::CounterClockwise,
            r.effect == effect,
    {
        Pipeline { fill_mode: FillMode::Solid, front_face: WindingOrder::CounterClockwise, effect }
    }

    /// The fragment stage at pixel `(x, y)`: depth test, then shade and write.
    fn draw_vertex<B: RenderTarget>(&self, x: u32, y: u32, it: &ScreenVertex, target: &mut B)
        requires
            old(target).valid(),
            x < old(target).width(),
            y < old(target).height(),
            it.bounded(),
        ensures
            final(target).valid(),
            rendered(self.effect, *old(target), *final(target), seq![(x as int, y as int, *it)]),
    {
        let ghost before = *target;
        if target.test_and_set_depth((x, y), it.depth) {
            let v = shading_input_of(x, y, it);
            let c = self.effect.ps(&v);
            target.put_pixel((x, y), c);
        }
        proof {
            let f: Fragment = (x as int, y as int, *it);
            assert forall|x2: int, y2: int|
                #![trigger target.depth_at(x2, y2)]
                #![trigger target.color_at(x2, y2)]
                target.depth_at(x2, y2) == pixel_after(
                    self.effect,
                    (before.depth_at(x2, y2), before.color_at(x2, y2)),
                    seq![f],
                    x2,
                    y2,
                ).0 && target.color_at(x2, y2) == pixel_after(
                    self.effect,
                    (before.depth_at(x2, y2), before.color_at(x2, y2)),
                    seq![f],
                    x2,
                    y2,
                ).1 by {
                lemma_pixel_after_one(self.effect, (before.depth_at(x2, y2), before.color_at(x2, y2)), f, x2, y2);
            }
        }
    }

    /// Draws the pixels of one scanline whose centres lie in `[a.x, b.x)`.
    fn draw_scanline<B: RenderTarget>(
        &self,
        y: u32,
        a: &ScreenVertex,
        b: &ScreenVertex,
        target: &mut B,
    )
        requires
            old(target).valid(),
            y < old(target).height(),
            a.bounded(),
            b.bounded(),
        ensures
            final(target).valid(),
            rendered(self.effect, *old(target), *final(target), span_frags(*a, *b, old(target).width() as int, y as int)),
    {
        let (width, _height) = target.size();
        let (x_start, x_end) = span_of(a.x, b.x, width);
        let mut x = x_start;
        proof {
            lemma_rendered_empty(self.effect, *target);
            assert(span_prefix(*a, *b, y as int, x_start as int, 0) =~= Seq::<Fragment>::empty());
        }
        while x < x_end
            invariant
                target.valid(),
                y < target.height(),
                width == target.width(),
                width == old(target).width(),
                x_start <= x,
                x <= x_end || x == x_start,
                0 <= x_start,
                x_end <= width,
                a.bounded(),
                b.bounded(),
                forall|p: int|
                    x_start <= p < x_end ==> a.x <= #[trigger] (SUBPIXEL * p + HALF_PIXEL) < b.x,
                x_start == pixel_span(a.x as int, b.x as int, width as int).0,
                x_end == pixel_span(a.x as int, b.x as int, width as int).1,
                rendered(
                    self.effect,
                    *old(target),
                    *target,
                    span_prefix(*a, *b, y as int, x_start as int, (x - x_start) as nat),
                ),
            decreases x_end - x,
        {
            let xc = SUBPIXEL * x + HALF_PIXEL;
            assert(a.x <= SUBPIXEL * x + HALF_PIXEL < b.x);
            let it = interpolate_screen(a, b, xc - a.x, b.x - a.x);
            let ghost before = *target;
            self.draw_vertex(x as u32, y, &it, target);
            proof {
                let n = (x - x_start) as nat;
                lemma_rendered_trans(
                    self.effect,
                    *old(target),
                    before,
                    *target,
                    span_prefix(*a, *b, y as int, x_start as int, n),
                    seq![(x as int, y as int, it)],
                );
                assert(span_prefix(*a, *b, y as int, x_start as int, n + 1) =~= span_prefix(
                    *a,
                    *b,
                    y as int,
                    x_start as int,
                    n,
                ) + seq![(x as int, y as int, it)]);
            }
            x = x + 1;
        }
        proof {
            assert(span_frags(*a, *b, width as int, y as int) =~= span_prefix(
                *a,
                *b,
                y as int,
                x_start as int,
                (x - x_start) as nat,
            ));
        }
    }

    /// Fills the rows whose pixel centres lie between `l0.y` and `l1.y`,
    /// between the left edge `l0 -> l1` and the right edge `r0 -> r1`.
    fn draw_flat_triangle<B: RenderTarget>(
        &self,
        l0: &ScreenVertex,
        l1: &ScreenVertex,
        r0: &ScreenVertex,
        r1: &ScreenVertex,
        target: &mut B,
    )
        requires
            old(target).valid(),
            l0.bounded(),
            l1.bounded(),
            r0.bounded(),
            r1.bounded(),
        ensures
            final(target).valid(),
            rendered(
                self.effect,
                *old(target),
                *final(target),
                half_frags((*l0, *l1, *r0, *r1), old(target).width() as int, old(target).height() as int),
            ),
    {
        let ghost f: FlatHalf = (*l0, *l1, *r0, *r1);
        let (width, height) = target.size();
        let top = l0.y;
        let bottom = l1.y;
        let (y_start, y_end) = span_of(top, bottom, height);
        let mut y = y_start;
        proof {
            lemma_rendered_empty(self.effect, *target);
        }
        while y < y_end
            invariant
                target.valid(),
                height == target.height(),
                width == target.width(),
                width == old(target).width(),
                height == old(target).height(),
                y_start <= y,
                y <= y_end || y == y_start,
                0 <= y_start,
                y_end <= height,
                l0.bounded(),
                l1.bounded(),
                r0.bounded(),
                r1.bounded(),
                top == l0.y,
                bottom == l1.y,
                f == (*l0, *l1, *r0, *r1),
                forall|p: int|
                    y_start <= p < y_end ==> top <= #[trigger] (SUBPIXEL * p + HALF_PIXEL) < bottom,
                y_start == pixel_span(top as int, bottom as int, height as int).0,
                y_end == pixel_span(top as int, bottom as int, height as int).1,
                rendered(
                    self.effect,
                    *old(target),
                    *target,
                    rows_frags(f, width as int, y_start as int, (y - y_start) as nat),
                ),
            decreases y_end - y,
        {
            let yc = SUBPIXEL * y + HALF_PIXEL;
            assert(top <= SUBPIXEL * y + HALF_PIXEL < bottom);
            let left = interpolate_screen(l0, l1, yc - top, bottom - top);
            let right = interpolate_screen(r0, r1, yc - top, bottom - top);
            let ghost before = *target;
            self.draw_scanline(y as u32, &left, &right, target);
            proof {
                let n = (y - y_start) as nat;
                assert(left == half_left(f, y as int));
                assert(right == half_right(f, y as int));
                lemma_rendered_trans(
                    self.effect,
                    *old(target),
                    before,
                    *target,
                    rows_frags(f, width as int, y_start as int, n),
                    span_frags(left, right, width as int, y as int),
                );
                assert(rows_frags(f, width as int, y_start as int, n + 1) == rows_frags(
                    f,
                    width as int,
                    y_start as int,
                    n,
                ) + span_frags(left, right, width as int, y as int));
            }
            y = y + 1;
        }
    }

    /// A triangle with a flat top edge `a b` (`a` left of `b`) and apex `c` below.
    fn draw_flattop_triangle<B: RenderTarget>(
        &self,
        a: &ScreenVertex,
        b: &ScreenVertex,
        c: &ScreenVertex,
        target: &mut B,
    )
        requires
            old(target).valid(),
            a.bounded(),
            b.bounded(),
            c.bounded(),
        ensures
            final(target).valid(),
            rendered(
                self.effect,
                *old(target),
                *final(target),
                half_frags((*a, *c, *b, *c), old(target).width() as int, old(target).height() as int),
            ),
    {
        self.draw_flat_triangle(a, c, b, c, target);
    }

    /// A triangle with apex `a` above a flat bottom edge `b c` (`b` left of `c`).
    fn draw_flatbottom_triangle<B: RenderTarget>(
        &self,
        a: &ScreenVertex,
        b: &ScreenVertex,
        c: &ScreenVertex,
        target: &mut B,
    )
        requires
            old(target).valid(),
            a.bounded(),
            b.bounded(),
            c.bounded(),
        ensures
            final(target).valid(),
            rendered(
                self.effect,
                *old(target),
                *final(target),
                half_frags((*a, *b, *a, *c), old(target).width() as int, old(target).height() as int),
            ),
    {
        self.draw_flat_triangle(a, b, a, c, target);
    }

    /// Renders a line with the DDA algorithm: `max(|dx|, |dy|)` samples
    /// a pixel apart, from `a` inclusive to `b` exclusive.
    fn render_line<B: RenderTarget>(&self, a: &ScreenVertex, b: &ScreenVertex, target: &mut B)
        requires
            old(target).valid(),
            a.bounded(),
            b.bounded(),
        ensures
            final(target).valid(),
            rendered(
                self.effect,
                *old(target),
                *final(target),
                line_frags(*a, *b, old(target).width() as int, old(target).height() as int),
            ),
    {
        let (width, height) = target.size();
        let dx = b.x - a.x;
        let dy = b.y - a.y;
        let adx = if dx < 0 {
            -dx
        } else {
            dx
        };
        let ady = if dy < 0 {
            -dy
        } else {
            dy
        };
        let steps = if adx > ady {
            adx
        } else {
            ady
        };
        let n = (steps + SUBPIXEL - 1) / SUBPIXEL;
        proof {
            crate::vertex::lemma_floor_bounds(steps + SUBPIXEL - 1, SUBPIXEL as int);
            lemma_rendered_empty(self.effect, *target);
        }
        let mut i: i64 = 0;
        while i < n
            invariant
                target.valid(),
                width == target.width(),
                height == target.height(),
                width == old(target).width(),
                height == old(target).height(),
                a.bounded(),
                b.bounded(),
                0 <= i <= n,
                0 <= steps <= 0x4000_0000_0000_0000,
                steps == dda_steps(*a, *b),
                n == dda_count(*a, *b),
                SUBPIXEL * n <= steps + SUBPIXEL - 1,
                rendered(
                    self.effect,
                    *old(target),
                    *target,
                    dda_prefix(*a, *b, width as int, height as int, i as nat),
                ),
            decreases n - i,
        {
            let it = interpolate_screen(a, b, SUBPIXEL * i, steps);
            let px = pixel_of(it.x);
            let py = pixel_of(it.y);
            let ghost before = *target;
            proof {
                assert(it == dda_sample(*a, *b, i as int));
            }
            if 0 <= px && px < width as i64 && 0 <= py && py < height as i64 {
                self.draw_vertex(px as u32, py as u32, &it, target);
                proof {
                    lemma_rendered_trans(
                        self.effect,
                        *old(target),
                        before,
                        *target,
                        dda_prefix(*a, *b, width as int, height as int, i as nat),
                        seq![(px as int, py as int, it)],
                    );
                    assert(dda_prefix(*a, *b, width as int, height as int, (i + 1) as nat) =~= dda_prefix(
                        *a,
                        *b,
                        width as int,
                        height as int,
                        i as nat,
                    ) + seq![(px as int, py as int, it)]);
                }
            } else {
                proof {
                    assert(dda_prefix(*a, *b, width as int, height as int, (i + 1) as nat) == dda_prefix(
                        *a,
                        *b,
                        width as int,
                        height as int,
                        i as nat,
                    ));
                }
            }
            i = i + 1;
        }
    }

    /// Rasterizes a screen-space triangle: its three edges in wireframe
    /// mode, else split into a flat-bottom and a flat-top half and filled.
    fn render_triangle<B: RenderTarget>(&self, t: &Triangle<ScreenVertex>, target: &mut B)
        requires
            old(target).valid(),
            t.0.bounded(),
            t.1.bounded(),
            t.2.bounded(),
        ensures
            final(target).valid(),
            rendered(
                self.effect,
                *old(target),
                *final(target),
                self.triangle_frags(*t, old(target).width() as int, old(target).height() as int),
            ),
    {
        match self.fill_mode {
            FillMode::Wireframe => self.outline_triangle(t, target),
            FillMode::Solid => self.fill_triangle(t, target),
        }
    }

    /// Draws the three edges of a screen-space triangle.
    fn outline_triangle<B: RenderTarget>(&self, t: &Triangle<ScreenVertex>, target: &mut B)
        requires
            old(target).valid(),
            t.0.bounded(),
            t.1.bounded(),
            t.2.bounded(),
        ensures
            final(target).valid(),
            rendered(
                self.effect,
                *old(target),
                *final(target),
                line_frags(t.0, t.1, old(target).width() as int, old(target).height() as int) + line_frags(
                    t.1,
                    t.2,
                    old(target).width() as int,
                    old(target).height() as int,
                ) + line_frags(t.2, t.0, old(target).width() as int, old(target).height() as int),
            ),
    {
        let ghost start = *target;
        let ghost w = target.width() as int;
        let ghost h = target.height() as int;
        self.render_line(&t.0, &t.1, target);
        let ghost s1 = *target;
        self.render_line(&t.1, &t.2, target);
        proof {
            lemma_rendered_trans(self.effect, start, s1, *target, line_frags(t.0, t.1, w, h), line_frags(t.1, t.2, w, h));
        }
        let ghost s2 = *target;
        self.render_line(&t.2, &t.0, target);
        proof {
            lemma_rendered_trans(
                self.effect,
                start,
                s2,
                *target,
                line_frags(t.0, t.1, w, h) + line_frags(t.1, t.2, w, h),
                line_frags(t.2, t.0, w, h),
            );
        }
    }

    /// Fills a screen-space triangle as one or two flat halves.
    fn fill_triangle<B: RenderTarget>(&self, t: &Triangle<ScreenVertex>, target: &mut B)
        requires
            old(target).valid(),
            t.0.bounded(),
            t.1.bounded(),
            t.2.bounded(),
        ensures
            final(target).valid(),
            rendered(
                self.effect,
                *old(target),
                *final(target),
                halves_frags(solid_halves(*t), old(target).width() as int, old(target).height() as int),
            ),
    {
        let ghost start = *target;
        let ghost w = target.width() as int;
        let ghost h = target.height() as int;
        let (v0, v1, v2) = sort_by_y(t);
        if v0.y == v1.y {
            if v0.x > v1.x {
                self.draw_flattop_triangle(&v1, &v0, &v2, target);
            } else {
                self.draw_flattop_triangle(&v0, &v1, &v2, target);
            }
        } else if v1.y == v2.y {
            if v1.x > v2.x {
                self.draw_flatbottom_triangle(&v0, &v2, &v1, target);
            } else {
                self.draw_flatbottom_triangle(&v0, &v1, &v2, target);
            }
        } else {
            // Split on the major edge v0 -> v2 at the height of v1.
            let vi = interpolate_screen(&v0, &v2, v1.y - v0.y, v2.y - v0.y);
            if v1.x < vi.x {
                self.draw_flatbottom_triangle(&v0, &v1, &vi, target);
                let ghost s1 = *target;
                self.draw_flattop_triangle(&v1, &vi, &v2, target);
                proof {
                    lemma_rendered_trans(
                        self.effect,
                        start,
                        s1,
                        *target,
                        half_frags((v0, v1, v0, vi), w, h),
                        half_frags((v1, v2, vi, v2), w, h),
                    );
                }
            } else {
                self.draw_flatbottom_triangle(&v0, &vi, &v1, target);
                let ghost s1 = *target;
                self.draw_flattop_triangle(&vi, &v1, &v2, target);
                proof {
                    lemma_rendered_trans(
                        self.effect,
                        start,
                        s1,
                        *target,
                        half_frags((v0, vi, v0, v1), w, h),
                        half_frags((vi, v2, v1, v2), w, h),
                    );
                }
            }
        }
    }

    /// Draws lines onto the render target.
    ///
    /// Each end goes through the vertex stage; the line is then clipped
    /// against the view frustum, mapped to the screen and rasterized.
    pub fn draw_lines<B: RenderTarget>(&self, primitives: &[Line<ColorVertex>], target: &mut B)
        requires
            old(target).valid(),
        ensures
            final(target).valid(),
            rendered(
                self.effect,
                *old(target),
                *final(target),
                self.lines_frags(
                    primitives@,
                    primitives@.len(),
                    old(target).width() as int,
                    old(target).height() as int,
                ),
            ),
    {
        let ghost w = target.width() as int;
        let ghost h = target.height() as int;
        proof {
            lemma_rendered_empty(self.effect, *target);
        }
        let mut k: usize = 0;
        while k < primitives.len()
            invariant
                target.valid(),
                k <= primitives@.len(),
                w == old(target).width(),
                h == old(target).height(),
                rendered(self.effect, *old(target), *target, self.lines_frags(primitives@, k as nat, w, h)),
            decreases primitives@.len() - k,
        {
            let line = &primitives[k];
            let a = self.effect.vs(&line.0);
            let b = self.effect.vs(&line.1);
            let ghost before = *target;
            self.line_processor(Line(a, b), target);
            proof {
                lemma_rendered_trans(
                    self.effect,
                    *old(target),
                    before,
                    *target,
                    self.lines_frags(primitives@, k as nat, w, h),
                    self.processed_line_frags(self.staged_line(primitives@[k as int]), w, h),
                );
            }
            k = k + 1;
        }
    }

    /// Draws lines given as pairs of indices into `vertices`: as
    /// `draw_lines` draws the lines those indices assemble, with each vertex
    /// going through the vertex stage once.
    pub fn draw_indexed_lines<B: RenderTarget>(
        &self,
        vertices: &[ColorVertex],
        primitives: &[Line<usize>],
        target: &mut B,
    )
        requires
            old(target).valid(),
            forall|k: int|
                0 <= k < primitives@.len() ==> #[trigger] primitives@[k].0 < vertices@.len()
                    && primitives@[k].1 < vertices@.len(),
        ensures
            final(target).valid(),
            rendered(
                self.effect,
                *old(target),
                *final(target),
                self.lines_frags(
                    assemble_lines(vertices@, primitives@),
                    primitives@.len(),
                    old(target).width() as int,
                    old(target).height() as int,
                ),
            ),
    {
        let ghost w = target.width() as int;
        let ghost h = target.height() as int;
        let ghost ls = assemble_lines(vertices@, primitives@);
        let transformed = self.vertex_stage(vertices);
        proof {
            lemma_rendered_empty(self.effect, *target);
        }
        let mut k: usize = 0;
        while k < primitives.len()
            invariant
                target.valid(),
                k <= primitives@.len(),
                w == old(target).width(),
                h == old(target).height(),
                ls == assemble_lines(vertices@, primitives@),
                transformed@.len() == vertices@.len(),
                forall|i: int|
                    0 <= i < vertices@.len() ==> #[trigger] transformed@[i] == self.effect.vertex_fn(
                        vertices@[i],
                    ),
                forall|k: int|
                    0 <= k < primitives@.len() ==> #[trigger] primitives@[k].0 < vertices@.len()
                        && primitives@[k].1 < vertices@.len(),
                rendered(self.effect, *old(target), *target, self.lines_frags(ls, k as nat, w, h)),
            decreases primitives@.len() - k,
        {
            let line = primitives[k].unindex(transformed.as_slice());
            let ghost before = *target;
            self.line_processor(line, target);
            proof {
                assert(line == self.staged_line(ls[k as int]));
                lemma_rendered_trans(
                    self.effect,
                    *old(target),
                    before,
                    *target,
                    self.lines_frags(ls, k as nat, w, h),
                    self.processed_line_frags(line, w, h),
                );
            }
            k = k + 1;
        }
    }

    /// Draws triangles onto the render target.
    ///
    /// Each vertex goes through the vertex stage; the triangle is culled by
    /// its winding, clipped against the near plane, mapped to the screen
    /// and rasterized.
    pub fn draw_triangles<B: RenderTarget>(&self, primitives: &[Triangle<ColorVertex>], target: &mut B)
        requires
            old(target).valid(),
        ensures
            final(target).valid(),
            rendered(
                self.effect,
                *old(target),
                *final(target),
                self.triangles_frags(
                    primitives@,
                    primitives@.len(),
                    old(target).width() as int,
                    old(target).height() as int,
                ),
            ),
    {
        let ghost w = target.width() as int;
        let ghost h = target.height() as int;
        proof {
            lemma_rendered_empty(self.effect, *target);
        }
        let mut k: usize = 0;
        while k < primitives.len()
            invariant
                target.valid(),
                k <= primitives@.len(),
                w == old(target).width(),
                h == old(target).height(),
                rendered(self.effect, *old(target), *target, self.triangles_frags(primitives@, k as nat, w, h)),
            decreases primitives@.len() - k,
        {
            let t = &primitives[k];
            let a = self.effect.vs(&t.0);
            let b = self.effect.vs(&t.1);
            let c = self.effect.vs(&t.2);
            let ghost before = *target;
            self.triangle_processor(Triangle(a, b, c), target);
            proof {
                lemma_rendered_trans(
                    self.effect,
                    *old(target),
                    before,
                    *target,
                    self.triangles_frags(primitives@, k as nat, w, h),
                    self.processed_triangle_frags(self.staged_triangle(primitives@[k as int]), w, h),
                );
            }
            k = k + 1;
        }
    }

    /// Draws triangles given as triples of indices into `vertices`: as
    /// `draw_triangles` draws the triangles those indices assemble, with
    /// each vertex going through the vertex stage once.
    pub fn draw_indexed_triangles<B: RenderTarget>(
        &self,
        vertices: &[ColorVertex],
        primitives: &[Triangle<usize>],
        target: &mut B,
    )
        requires
            old(target).valid(),
            forall|k: int|
                0 <= k < primitives@.len() ==> #[trigger] primitives@[k].0 < vertices@.len()
                    && primitives@[k].1 < vertices@.len() && primitives@[k].2 < vertices@.len(),
        ensures
            final(target).valid(),
            rendered(
                self.effect,
                *old(target),
                *final(target),
                self.triangles_frags(
                    assemble_triangles(vertices@, primitives@),
                    primitives@.len(),
                    old(target).width() as int,
                    old(target).height() as int,
                ),
            ),
    {
        let ghost w = target.width() as int;
        let ghost h = target.height() as int;
        let ghost ts = assemble_triangles(vertices@, primitives@);
        let transformed = self.vertex_stage(vertices);
        proof {
            lemma_rendered_empty(self.effect, *target);
        }
        let mut k: usize = 0;
        while k < primitives.len()
            invariant
                target.valid(),
                k <= primitives@.len(),
                w == old(target).width(),
                h == old(target).height(),
                ts == assemble_triangles(vertices@, primitives@),
                transformed@.len() == vertices@.len(),
                forall|i: int|
                    0 <= i < vertices@.len() ==> #[trigger] transformed@[i] == self.effect.vertex_fn(
                        vertices@[i],
                    ),
                forall|k: int|
                    0 <= k < primitives@.len() ==> #[trigger] primitives@[k].0 < vertices@.len()
                        && primitives@[k].1 < vertices@.len() && primitives@[k].2
                        < vertices@.len(),
                rendered(self.effect, *old(target), *target, self.triangles_frags(ts, k as nat, w, h)),
            decreases primitives@.len() - k,
        {
            let t = primitives[k].unindex(transformed.as_slice());
            let ghost before = *target;
            self.triangle_processor(t, target);
            proof {
                assert(t == self.staged_triangle(ts[k as int]));
                lemma_rendered_trans(
                    self.effect,
                    *old(target),
                    before,
                    *target,
                    self.triangles_frags(ts, k as nat, w, h),
                    self.processed_triangle_frags(t, w, h),
                );
            }
            k = k + 1;
        }
    }

    /// Applies the vertex stage to a copy of each vertex.
    fn vertex_stage(&self, vertices: &[ColorVertex]) -> (r: Vec<ColorVertex>)
        ensures
            r@.len() == vertices@.len(),
            forall|i: int| 0 <= i < vertices@.len() ==> #[trigger] r@[i] == self.effect.vertex_fn(vertices@[i]),
    {
        let mut r: Vec<ColorVertex> = Vec::new();
        let mut k: usize = 0;
        while k < vertices.len()
            invariant
                r@.len() == k,
                k <= vertices@.len(),
                forall|i: int| 0 <= i < k ==> #[trigger] r@[i] == self.effect.vertex_fn(vertices@[i]),
            decreases vertices@.len() - k,
        {
            r.push(self.effect.vs(&vertices[k]));
            k = k + 1;
        }
        r
    }

    /// Clips a clip-space line, maps it to the screen and rasterizes it.
    ///
    /// A line with a coordinate out of range, or that clipping rejects,
    /// leaves the target as it was; otherwise the clipped line is drawn.
    pub fn line_processor<B: RenderTarget>(&self, line: Line<ColorVertex>, target: &mut B)
        requires
            old(target).valid(),
        ensures
            final(target).valid(),
            rendered(
                self.effect,
                *old(target),
                *final(target),
                self.processed_line_frags(line, old(target).width() as int, old(target).height() as int),
            ),
    {
        proof {
            lemma_rendered_empty(self.effect, *target);
        }
        if !line.0.is_bounded() || !line.1.is_bounded() {
            return ;
        }
        match clip_line(line) {
            None => {},
            Some(l) => {
                if l.0.position.w > 0 && l.1.position.w > 0 {
                    let (width, height) = target.size();
                    let a = to_screen_coords(&l.0, width, height);
                    let b = to_screen_coords(&l.1, width, height);
                    self.render_line(&a, &b, target);
                }
            },
        }
    }

    /// Maps a clipped triangle to the screen and rasterizes it.
    fn triangle_postprocessor<B: RenderTarget>(&self, t: &Triangle<ColorVertex>, target: &mut B)
        requires
            old(target).valid(),
            t.0.bounded(),
            t.1.bounded(),
            t.2.bounded(),
        ensures
            final(target).valid(),
            rendered(
                self.effect,
                *old(target),
                *final(target),
                self.piece_frags(*t, old(target).width() as int, old(target).height() as int),
            ),
    {
        proof {
            lemma_rendered_empty(self.effect, *target);
        }
        if t.0.position.w != 0 && t.1.position.w != 0 && t.2.position.w != 0 {
            let (width, height) = target.size();
            let a = facing_vertex(&t.0);
            let b = facing_vertex(&t.1);
            let c = facing_vertex(&t.2);
            let s = Triangle(
                to_screen_coords(&a, width, height),
                to_screen_coords(&b, width, height),
                to_screen_coords(&c, width, height),
            );
            self.render_triangle(&s, target);
        }
    }

    /// Culls a clip-space triangle by its winding, clips it against the near
    /// plane, and draws what is left.
    ///
    /// A triangle with a coordinate out of range is rejected. A culled
    /// triangle leaves the target as it was; otherwise each triangle that
    /// clipping leaves is drawn, in order.
    pub fn triangle_processor<B: RenderTarget>(&self, t: Triangle<ColorVertex>, target: &mut B)
        requires
            old(target).valid(),
        ensures
            final(target).valid(),
            rendered(
                self.effect,
                *old(target),
                *final(target),
                self.processed_triangle_frags(t, old(target).width() as int, old(target).height() as int),
            ),
    {
        let ghost w = target.width() as int;
        let ghost h = target.height() as int;
        proof {
            lemma_rendered_empty(self.effect, *target);
        }
        if !t.0.is_bounded() || !t.1.is_bounded() || !t.2.is_bounded() {
            return ;
        }
        let winding = t.get_winding();
        if winding == WindingOrder::Degenerate || winding != self.front_face {
            return ;
        }
        match clip_triangle(t) {
            ClippedTriangle::Empty => {},
            ClippedTriangle::One(a) => {
                self.triangle_postprocessor(&a, target);
                proof {
                    assert(clip_outputs(clipped_triangle(t)) =~= seq![a]);
                }
            },
            ClippedTriangle::Two(a, b) => {
                let ghost start = *target;
                self.triangle_postprocessor(&a, target);
                let ghost s1 = *target;
                self.triangle_postprocessor(&b, target);
                proof {
                    lemma_rendered_trans(self.effect, start, s1, *target, self.piece_frags(a, w, h), self.piece_frags(b, w, h));
                    assert(clip_outputs(clipped_triangle(t)) =~= seq![a, b]);
                }
            },
        }
    }
}

/// Depth is the minimum: after fragments go through the depth test, a
/// pixel's depth is no deeper than where it started, nor than any fragment
/// that reached it; and it is where it started or one of those fragments'
/// depth.
pub proof fn law_depth_is_minimum<E: Effect>(e: E, start: (i64, Color), frags: Seq<Fragment>, x: int, y: int)
    ensures
        pixel_after(e, start, frags, x, y).0 <= start.0,
        forall|k: int|
            0 <= k < frags.len() && frags[k].0 == x && frags[k].1 == y ==> pixel_after(e, start, frags, x, y).0
                <= #[trigger] frags[k].2.depth,
        pixel_after(e, start, frags, x, y) == start || exists|k: int|
            0 <= k < frags.len() && frags[k].0 == x && frags[k].1 == y && pixel_after(e, start, frags, x, y).0
                == #[trigger] frags[k].2.depth,
    decreases frags.len(),
{
    if frags.len() > 0 {
        let prev = frags.drop_last();
        law_depth_is_minimum(e, start, prev, x, y);
        assert forall|k: int| 0 <= k < prev.len() implies #[trigger] prev[k] == frags[k] by {}
        let r = pixel_after(e, start, frags, x, y);
        let p = pixel_after(e, start, prev, x, y);
        let last = frags[frags.len() - 1];
        assert(r.0 <= p.0);
        assert forall|k: int|
            0 <= k < frags.len() && frags[k].0 == x && frags[k].1 == y implies r.0
                <= #[trigger] frags[k].2.depth by {
            if k < prev.len() {
                assert(prev[k] == frags[k]);
            }
        }
        if r != start && r != p {
            assert(r.0 == frags[frags.len() - 1].2.depth);
        } else if r != start {
            let k = choose|k: int|
                0 <= k < prev.len() && prev[k].0 == x && prev[k].1 == y && pixel_after(e, start, prev, x, y).0
                    == #[trigger] prev[k].2.depth;
            assert(frags[k] == prev[k]);
        }
    }
}

/// A pixel that no fragment reaches keeps its depth and colour.
pub proof fn law_unreached_pixel_kept<E: Effect>(e: E, start: (i64, Color), frags: Seq<Fragment>, x: int, y: int)
    requires
        forall|k: int| 0 <= k < frags.len() ==> !(#[trigger] frags[k].0 == x && frags[k].1 == y),
    ensures
        pixel_after(e, start, frags, x, y) == start,
    decreases frags.len(),
{
    if frags.len() > 0 {
        let prev = frags.drop_last();
        assert forall|k: int| 0 <= k < prev.len() implies !(#[trigger] prev[k].0 == x && prev[k].1 == y) by {
            assert(prev[k] == frags[k]);
        }
        law_unreached_pixel_kept(e, start, prev, x, y);
        assert(!(frags[frags.len() - 1].0 == x && frags[frags.len() - 1].1 == y));
    }
}

/// A triangle of winding `w` is culled: it is degenerate or it is not the
/// front face.
pub open spec fn culled(w: WindingOrder, front_face: WindingOrder) -> bool {
    w == WindingOrder::Degenerate || w != front_face
}

/// Back-face culling: of a triangle and its twin with two vertices
/// swapped, exactly one survives culling for either front face, unless the
/// triangle is degenerate, in which case both are culled.
pub proof fn law_back_face_culling(p0: Vec4, p1: Vec4, p2: Vec4, front_face: WindingOrder)
    requires
        front_face != WindingOrder::Degenerate,
    ensures
        winding_of(p0, p1, p2) != WindingOrder::Degenerate ==> culled(
            winding_of(p0, p1, p2),
            front_face,
        ) != culled(winding_of(p0, p2, p1), front_face),
        winding_of(p0, p1, p2) == WindingOrder::Degenerate ==> culled(
            winding_of(p0, p1, p2),
            front_face,
        ) && culled(winding_of(p0, p2, p1), front_face),
{
    lemma_swap_reverses_winding(p0, p1, p2);
}

pub proof fn lemma_first_pixel_monotone(a: int, b: int)
    requires
        a <= b,
    ensures
        first_pixel(a) <= first_pixel(b),
{
    vstd::arithmetic::div_mod::lemma_div_is_ordered(HALF_PIXEL - b, HALF_PIXEL - a, SUBPIXEL as int);
}

proof fn lemma_span_frags_in(a: ScreenVertex, b: ScreenVertex, width: int, y: int, k: int)
    requires
        0 <= k < span_frags(a, b, width, y).len(),
    ensures
        span_frags(a, b, width, y)[k].1 == y,
        0 <= span_frags(a, b, width, y)[k].0 < width,
        first_pixel(a.x as int) <= span_frags(a, b, width, y)[k].0 < first_pixel(b.x as int),
{
}

/// The screen position of a row edge lies between the edge's ends.
proof fn lemma_row_edge_between(e0: ScreenVertex, e1: ScreenVertex, top: int, bottom: int, y: int)
    requires
        e0.bounded(),
        e1.bounded(),
        top <= SUBPIXEL * y + HALF_PIXEL < bottom,
    ensures
        between(row_edge(e0, e1, top, bottom, y).x as int, e0.x as int, e1.x as int),
{
    crate::vertex::lemma_scaled_between(e1.x - e0.x, SUBPIXEL * y + HALF_PIXEL - top, bottom - top);
}

proof fn lemma_rows_frags_in(f: FlatHalf, width: int, y0: int, n: nat, k: int)
    requires
        0 <= k < rows_frags(f, width, y0, n).len(),
    ensures
        y0 <= rows_frags(f, width, y0, n)[k].1 < y0 + n,
        0 <= rows_frags(f, width, y0, n)[k].0 < width,
        first_pixel(half_left(f, rows_frags(f, width, y0, n)[k].1).x as int) <= rows_frags(
            f,
            width,
            y0,
            n,
        )[k].0 < first_pixel(half_right(f, rows_frags(f, width, y0, n)[k].1).x as int),
    decreases n,
{
    if n > 0 {
        let prev = rows_frags(f, width, y0, (n - 1) as nat);
        let y = y0 + n - 1;
        let row = span_frags(half_left(f, y), half_right(f, y), width, y);
        assert(rows_frags(f, width, y0, n) == prev + row);
        if k < prev.len() {
            lemma_rows_frags_in(f, width, y0, (n - 1) as nat, k);
        } else {
            lemma_span_frags_in(half_left(f, y), half_right(f, y), width, y, k - prev.len());
        }
    }
}

pub open spec fn min2(a: int, b: int) -> int {
    if a <= b { a } else { b }
}

pub open spec fn max2(a: int, b: int) -> int {
    if a >= b { a } else { b }
}

/// Every fragment of a flat half lies on the target, in a row whose centre
/// is between the half's top and bottom, and in a column whose centre is
/// between the leftmost and the rightmost of its vertices.
pub proof fn lemma_half_frags_in(f: FlatHalf, width: int, height: int, k: int)
    requires
        f.0.bounded(),
        f.1.bounded(),
        f.2.bounded(),
        f.3.bounded(),
        0 <= k < half_frags(f, width, height).len(),
    ensures
        0 <= half_frags(f, width, height)[k].0 < width,
        0 <= half_frags(f, width, height)[k].1 < height,
        first_pixel(f.0.y as int) <= half_frags(f, width, height)[k].1 < first_pixel(f.1.y as int),
        first_pixel(min2(min2(f.0.x as int, f.1.x as int), min2(f.2.x as int, f.3.x as int)))
            <= half_frags(f, width, height)[k].0 < first_pixel(
            max2(max2(f.0.x as int, f.1.x as int), max2(f.2.x as int, f.3.x as int)),
        ),
{
    let (s, e) = pixel_span(f.0.y as int, f.1.y as int, height);
    let n: nat = if e > s {
        (e - s) as nat
    } else {
        0
    };
    let fr = half_frags(f, width, height)[k];
    lemma_rows_frags_in(f, width, s, n, k);
    let y = fr.1;
    crate::raster::lemma_first_pixel(f.0.y as int);
    crate::raster::lemma_first_pixel(f.1.y as int);
    assert(f.0.y <= SUBPIXEL * y + HALF_PIXEL < f.1.y);
    lemma_row_edge_between(f.0, f.1, f.0.y as int, f.1.y as int, y);
    lemma_row_edge_between(f.2, f.3, f.0.y as int, f.1.y as int, y);
    let lx = half_left(f, y).x as int;
    let rx = half_right(f, y).x as int;
    let lo = min2(min2(f.0.x as int, f.1.x as int), min2(f.2.x as int, f.3.x as int));
    let hi = max2(max2(f.0.x as int, f.1.x as int), max2(f.2.x as int, f.3.x as int));
    lemma_first_pixel_monotone(lo, lx);
    lemma_first_pixel_monotone(rx, hi);
}

proof fn lemma_screen_blend_hull(a: ScreenVertex, b: ScreenVertex, n: int, d: int)
    requires
        a.bounded(),
        b.bounded(),
        crate::vertex::valid_weight(n, d),
    ensures
        screen_blend(a, b, n, d).bounded(),
        between(screen_blend(a, b, n, d).x as int, a.x as int, b.x as int),
        between(screen_blend(a, b, n, d).y as int, a.y as int, b.y as int),
{
    crate::vertex::lemma_scaled_between(b.x - a.x, n, d);
    crate::vertex::lemma_scaled_between(b.y - a.y, n, d);
    crate::vertex::lemma_scaled_between(b.depth - a.depth, n, d);
    crate::vertex::lemma_scaled_between(b.inv_w - a.inv_w, n, d);
    crate::vertex::lemma_scaled_between(b.color.x - a.color.x, n, d);
    crate::vertex::lemma_scaled_between(b.color.y - a.color.y, n, d);
    crate::vertex::lemma_scaled_between(b.color.z - a.color.z, n, d);
    crate::vertex::lemma_scaled_between(b.color.w - a.color.w, n, d);
}

pub open spec fn min3(a: int, b: int, c: int) -> int {
    min2(min2(a, b), c)
}

pub open spec fn max3(a: int, b: int, c: int) -> int {
    max2(max2(a, b), c)
}

/// A half whose vertices lie within a rectangle, with its top and bottom
/// rows between the rectangle's, keeps its fragments in the rectangle.
proof fn lemma_half_in_box(f: FlatHalf, width: int, height: int, k: int, x0: int, x1: int, y0: int, y1: int)
    requires
        f.0.bounded(),
        f.1.bounded(),
        f.2.bounded(),
        f.3.bounded(),
        0 <= k < half_frags(f, width, height).len(),
        x0 <= f.0.x <= x1,
        x0 <= f.1.x <= x1,
        x0 <= f.2.x <= x1,
        x0 <= f.3.x <= x1,
        y0 <= f.0.y,
        f.1.y <= y1,
    ensures
        0 <= half_frags(f, width, height)[k].0 < width,
        0 <= half_frags(f, width, height)[k].1 < height,
        first_pixel(x0) <= half_frags(f, width, height)[k].0 < first_pixel(x1),
        first_pixel(y0) <= half_frags(f, width, height)[k].1 < first_pixel(y1),
{
    lemma_half_frags_in(f, width, height, k);
    lemma_first_pixel_monotone(x0, min2(min2(f.0.x as int, f.1.x as int), min2(f.2.x as int, f.3.x as int)));
    lemma_first_pixel_monotone(max2(max2(f.0.x as int, f.1.x as int), max2(f.2.x as int, f.3.x as int)), x1);
    lemma_first_pixel_monotone(y0, f.0.y as int);
    lemma_first_pixel_monotone(f.1.y as int, y1);
}

/// Fill stays in the triangle's rectangle: every fragment of a solid
/// screen triangle lies on the target, in a row whose centre is between
/// the highest and the lowest vertex, and in a column whose centre is
/// between the leftmost and the rightmost vertex.
pub proof fn law_fill_in_bounding_box(t: Triangle<ScreenVertex>, width: int, height: int, k: int)
    requires
        t.0.bounded(),
        t.1.bounded(),
        t.2.bounded(),
        0 <= k < halves_frags(solid_halves(t), width, height).len(),
    ensures
        0 <= halves_frags(solid_halves(t), width, height)[k].0 < width,
        0 <= halves_frags(solid_halves(t), width, height)[k].1 < height,
        first_pixel(min3(t.0.x as int, t.1.x as int, t.2.x as int)) <= halves_frags(
            solid_halves(t),
            width,
            height,
        )[k].0 < first_pixel(max3(t.0.x as int, t.1.x as int, t.2.x as int)),
        first_pixel(min3(t.0.y as int, t.1.y as int, t.2.y as int)) <= halves_frags(
            solid_halves(t),
            width,
            height,
        )[k].1 < first_pixel(max3(t.0.y as int, t.1.y as int, t.2.y as int)),
{
    let (v0, v1, v2) = sorted_by_y(t);
    let x0 = min3(t.0.x as int, t.1.x as int, t.2.x as int);
    let x1 = max3(t.0.x as int, t.1.x as int, t.2.x as int);
    let y0 = min3(t.0.y as int, t.1.y as int, t.2.y as int);
    let y1 = max3(t.0.y as int, t.1.y as int, t.2.y as int);
    assert(v0.y <= v1.y <= v2.y);
    assert(v0 == t.0 || v0 == t.1 || v0 == t.2);
    assert(v1 == t.0 || v1 == t.1 || v1 == t.2);
    assert(v2 == t.0 || v2 == t.1 || v2 == t.2);
    assert(y0 <= v0.y && v2.y <= y1);
    let hs = solid_halves(t);
    let frags = halves_frags(hs, width, height);
    if v0.y != v1.y && v1.y != v2.y {
        let vi = screen_blend(v0, v2, v1.y - v0.y, v2.y - v0.y);
        lemma_screen_blend_hull(v0, v2, v1.y - v0.y, v2.y - v0.y);
    }
    let f0 = hs[0];
    let n0 = half_frags(f0, width, height).len();
    if hs.len() == 1 || k < n0 {
        lemma_half_in_box(f0, width, height, k, x0, x1, y0, y1);
    } else {
        assert(frags == half_frags(f0, width, height) + half_frags(hs[1], width, height));
        lemma_half_in_box(hs[1], width, height, k - n0, x0, x1, y0, y1);
    }
}

/// Fragment `a` comes before fragment `b` in row-major order.
pub open spec fn row_major_before(a: Fragment, b: Fragment) -> bool {
    a.1 < b.1 || (a.1 == b.1 && a.0 < b.0)
}

pub open spec fn row_major(frags: Seq<Fragment>) -> bool {
    forall|i: int, j: int| 0 <= i < j < frags.len() ==> row_major_before(#[trigger] frags[i], #[trigger] frags[j])
}

proof fn lemma_concat_row_major(a: Seq<Fragment>, b: Seq<Fragment>)
    requires
        row_major(a),
        row_major(b),
        forall|i: int, j: int| 0 <= i < a.len() && 0 <= j < b.len() ==> #[trigger] a[i].1 < #[trigger] b[j].1,
    ensures
        row_major(a + b),
{
    let c = a + b;
    assert forall|i: int, j: int| 0 <= i < j < c.len() implies row_major_before(#[trigger] c[i], #[trigger] c[j]) by {
        if j < a.len() {
            assert(c[i] == a[i] && c[j] == a[j]);
        } else if i >= a.len() {
            assert(c[i] == b[i - a.len()] && c[j] == b[j - a.len()]);
        } else {
            assert(c[i] == a[i] && c[j] == b[j - a.len()]);
        }
    }
}

proof fn lemma_rows_frags_row_major(f: FlatHalf, width: int, y0: int, n: nat)
    ensures
        row_major(rows_frags(f, width, y0, n)),
    decreases n,
{
    if n > 0 {
        let prev = rows_frags(f, width, y0, (n - 1) as nat);
        let y = y0 + n - 1;
        let row = span_frags(half_left(f, y), half_right(f, y), width, y);
        lemma_rows_frags_row_major(f, width, y0, (n - 1) as nat);
        assert forall|i: int, j: int| 0 <= i < prev.len() && 0 <= j < row.len() implies #[trigger] prev[i].1
            < #[trigger] row[j].1 by {
            lemma_rows_frags_in(f, width, y0, (n - 1) as nat, i);
        }
        assert(row_major(row));
        lemma_concat_row_major(prev, row);
    }
}

/// Within one solid triangle no pixel gets two fragments: the fragments
/// come in row-major order, the rows of the upper half above those of the
/// lower half.
pub proof fn law_fill_fragments_distinct(t: Triangle<ScreenVertex>, width: int, height: int, i: int, j: int)
    requires
        t.0.bounded(),
        t.1.bounded(),
        t.2.bounded(),
        0 <= i < j < halves_frags(solid_halves(t), width, height).len(),
    ensures
        row_major_before(
            halves_frags(solid_halves(t), width, height)[i],
            halves_frags(solid_halves(t), width, height)[j],
        ),
        !(halves_frags(solid_halves(t), width, height)[i].0 == halves_frags(solid_halves(t), width, height)[j].0
            && halves_frags(solid_halves(t), width, height)[i].1 == halves_frags(
            solid_halves(t),
            width,
            height,
        )[j].1),
{
    let (v0, v1, v2) = sorted_by_y(t);
    assert(v0.y <= v1.y <= v2.y);
    assert(v0 == t.0 || v0 == t.1 || v0 == t.2);
    assert(v1 == t.0 || v1 == t.1 || v1 == t.2);
    assert(v2 == t.0 || v2 == t.1 || v2 == t.2);
    let hs = solid_halves(t);
    if v0.y != v1.y && v1.y != v2.y {
        lemma_screen_blend_hull(v0, v2, v1.y - v0.y, v2.y - v0.y);
    }
    let f0 = hs[0];
    let (s0, e0) = pixel_span(f0.0.y as int, f0.1.y as int, height);
    lemma_rows_frags_row_major(f0, width, s0, if e0 > s0 { (e0 - s0) as nat } else { 0 });
    if hs.len() == 2 {
        let f1 = hs[1];
        let (s1, e1) = pixel_span(f1.0.y as int, f1.1.y as int, height);
        lemma_rows_frags_row_major(f1, width, s1, if e1 > s1 { (e1 - s1) as nat } else { 0 });
        let a = half_frags(f0, width, height);
        let b = half_frags(f1, width, height);
        assert(f0.1.y == f1.0.y);
        assert forall|p: int, q: int| 0 <= p < a.len() && 0 <= q < b.len() implies #[trigger] a[p].1
            < #[trigger] b[q].1 by {
            lemma_half_frags_in(f0, width, height, p);
            lemma_half_frags_in(f1, width, height, q);
        }
        lemma_concat_row_major(a, b);
    }
}

/// Depth occlusion: of two fragments at one pixel, the nearer one sets
/// the pixel's depth and colour whichever of the two comes first, when it
/// is nearer than what the pixel held.
pub proof fn law_nearer_fragment_wins<E: Effect>(e: E, start: (i64, Color), near: Fragment, far: Fragment)
    requires
        near.0 == far.0,
        near.1 == far.1,
        near.2.depth < far.2.depth,
        near.2.depth < start.0,
    ensures
        pixel_after(e, start, seq![far, near], near.0, near.1) == (
            near.2.depth,
            e.fragment_fn(shading_input(near.0, near.1, near.2)),
        ),
        pixel_after(e, start, seq![near, far], near.0, near.1) == (
            near.2.depth,
            e.fragment_fn(shading_input(near.0, near.1, near.2)),
        ),
{
    let (x, y) = (near.0, near.1);
    assert(seq![far, near] =~= seq![far] + seq![near]);
    assert(seq![near, far] =~= seq![near] + seq![far]);
    lemma_pixel_after_concat(e, start, seq![far], seq![near], x, y);
    lemma_pixel_after_concat(e, start, seq![near], seq![far], x, y);
    lemma_pixel_after_one(e, start, far, x, y);
    lemma_pixel_after_one(e, pixel_after(e, start, seq![far], x, y), near, x, y);
    lemma_pixel_after_one(e, start, near, x, y);
    lemma_pixel_after_one(e, pixel_after(e, start, seq![near], x, y), far, x, y);
}

} // verus!
