//! Models: lists of primitives, direct or indexed, built by procedural
//! model builders.
use vstd::prelude::*;
use std::marker::PhantomData;
use crate::primitives::{Line, Triangle};
use crate::vertex::Vec4;

verus! {

/// Procedural model generation.
pub trait ModelBuilder<P, V> {
    /// Whether `r` is a list of primitives that this builder may give.
    spec fn primitives_built(&self, r: Seq<P>) -> bool;

    /// Whether `r` is a list of vertices that this builder may give.
    spec fn vertices_built(&self, r: Seq<V>) -> bool;

    fn build_primitives(&self) -> (r: Vec<P>)
        ensures
            self.primitives_built(r@),
    ;

    fn build_vertices(&self) -> (r: Vec<V>)
        ensures
            self.vertices_built(r@),
    ;
}

/// A model made of a line list.
pub struct LineList<V> {
    pub primitives: Vec<Line<V>>,
}

impl<V> LineList<V> {
    pub fn from_builder<B: ModelBuilder<Line<V>, V>>(builder: B) -> (r: Self)
        ensures
            builder.primitives_built(r.primitives@),
    {
        LineList { primitives: builder.build_primitives() }
    }
}

/// A model made of a line list over indexed vertices.
pub struct IndexedLineList<V> {
    pub vertices: Vec<V>,
    pub primitives: Vec<Line<usize>>,
}

impl<V> IndexedLineList<V> {
    pub fn from_builder<B: ModelBuilder<Line<usize>, V>>(builder: B) -> (r: Self)
        ensures
            builder.primitives_built(r.primitives@),
            builder.vertices_built(r.vertices@),
    {
        let primitives = builder.build_primitives();
        let vertices = builder.build_vertices();
        IndexedLineList { vertices, primitives }
    }
}

/// A model made of a triangle list.
pub struct TriangleList<V> {
    pub primitives: Vec<Triangle<V>>,
}

impl<V> TriangleList<V> {
    pub fn from_builder<B: ModelBuilder<Triangle<V>, V>>(builder: B) -> (r: Self)
        ensures
            builder.primitives_built(r.primitives@),
    {
        TriangleList { primitives: builder.build_primitives() }
    }
}

/// A model made of a triangle list over indexed vertices.
pub struct IndexedTriangleList<V> {
    pub vertices: Vec<V>,
    pub primitives: Vec<Triangle<usize>>,
}

impl<V> IndexedTriangleList<V> {
    pub fn from_builder<B: ModelBuilder<Triangle<usize>, V>>(builder: B) -> (r: Self)
        ensures
            builder.primitives_built(r.primitives@),
            builder.vertices_built(r.vertices@),
    {
        let primitives = builder.build_primitives();
        let vertices = builder.build_vertices();
        IndexedTriangleList { vertices, primitives }
    }
}

/// A model builder whose vertices pass through a transformer: the
/// primitives of `builder`, over `transformer` applied to each of its
/// vertices.
#[verifier::reject_recursive_types(VI)]
#[verifier::reject_recursive_types(VO)]
pub struct ModelAdaptor<P, VI, B, VO, T> where B: ModelBuilder<P, VI>, T: Fn(VI) -> VO {
    builder: B,
    transformer: T,
    primitive: PhantomData<P>,
    vertex_input: PhantomData<VI>,
}

impl<P, VI, B, VO, T> ModelAdaptor<P, VI, B, VO, T> where B: ModelBuilder<P, VI>, T: Fn(VI) -> VO {
    /// The transformer accepts every vertex.
    #[verifier::type_invariant]
    spec fn total(&self) -> bool {
        forall|v: VI| #[trigger] self.transformer.requires((v,))
    }

    pub closed spec fn transformer_spec(&self) -> T {
        self.transformer
    }

    pub closed spec fn builder_spec(&self) -> B {
        self.builder
    }

    pub fn new(builder: B, transformer: T) -> (r: Self)
        requires
            forall|v: VI| #[trigger] transformer.requires((v,)),
        ensures
            r.builder_spec() == builder,
            r.transformer_spec() == transformer,
    {
        ModelAdaptor {
            builder,
            transformer,
            primitive: PhantomData,
            vertex_input: PhantomData,
        }
    }

    /// Applies the transformer to each vertex, in order.
    pub fn transform_vertices(&self, input: Vec<VI>) -> (r: Vec<VO>)
        ensures
            r@.len() == input@.len(),
            forall|k: int|
                0 <= k < input@.len() ==> self.transformer_spec().ensures(
                    (input@[k],),
                    #[trigger] r@[k],
                ),
    {
        proof {
            use_type_invariant(self);
        }
        let ghost given = input@;
        let n = input.len();
        let mut rest = input;
        let mut result: Vec<VO> = Vec::new();
        let mut k: usize = 0;
        while k < n
            invariant
                n == given.len(),
                k <= n,
                result@.len() == k,
                rest@ == given.subrange(k as int, n as int),
                forall|v: VI| #[trigger] self.transformer.requires((v,)),
                forall|j: int|
                    0 <= j < k ==> self.transformer.ensures((given[j],), #[trigger] result@[j]),
            decreases n - k,
        {
            let v = rest.remove(0);
            let out = (self.transformer)(v);
            result.push(out);
            proof {
                assert(rest@ =~= given.subrange(k + 1, n as int));
            }
            k = k + 1;
        }
        result
    }
}

impl<P, VI, B, VO, T> ModelBuilder<P, VO> for ModelAdaptor<P, VI, B, VO, T> where
    B: ModelBuilder<P, VI>,
    T: Fn(VI) -> VO,
 {
    /// The primitives of the builder.
    open spec fn primitives_built(&self, r: Seq<P>) -> bool {
        self.builder_spec().primitives_built(r)
    }

    /// The vertices of the builder, each passed through the transformer,
    /// in order.
    open spec fn vertices_built(&self, r: Seq<VO>) -> bool {
        exists|vs: Seq<VI>|
            #[trigger] self.builder_spec().vertices_built(vs) && r.len() == vs.len() && forall|i: int|
                0 <= i < vs.len() ==> self.transformer_spec().ensures((vs[i],), #[trigger] r[i])
    }

    fn build_primitives(&self) -> Vec<P> {
        self.builder.build_primitives()
    }

    fn build_vertices(&self) -> Vec<VO> {
        let vs = self.builder.build_vertices();
        let ghost given = vs@;
        let r = self.transform_vertices(vs);
        proof {
            assert(self.builder_spec().vertices_built(given));
        }
        r
    }
}

/// The twelve edges of a cube, as pairs of corner indices.
pub open spec fn cube_edges() -> Seq<Line<usize>> {
    seq![Line(0usize, 1usize), Line(0usize, 2usize), Line(0usize, 4usize), Line(1usize, 3usize), Line(1usize, 5usize), Line(2usize, 3usize), Line(3usize, 7usize), Line(2usize, 6usize), Line(4usize, 5usize), Line(4usize, 6usize), Line(5usize, 7usize), Line(6usize, 7usize)]
}

/// The twelve triangles of a cube, two per face, counter-clockwise seen from outside.
pub open spec fn cube_faces() -> Seq<Triangle<usize>> {
    seq![Triangle(0usize, 2usize, 1usize), Triangle(2usize, 3usize, 1usize), Triangle(1usize, 3usize, 5usize), Triangle(3usize, 7usize, 5usize), Triangle(2usize, 6usize, 3usize), Triangle(3usize, 6usize, 7usize), Triangle(4usize, 5usize, 7usize), Triangle(4usize, 7usize, 6usize), Triangle(0usize, 4usize, 2usize), Triangle(2usize, 4usize, 6usize), Triangle(0usize, 1usize, 4usize), Triangle(1usize, 5usize, 4usize)]
}

/// The four edges of a plane, as pairs of corner indices.
pub open spec fn plane_edges() -> Seq<Line<usize>> {
    seq![Line(0usize, 1usize), Line(1usize, 3usize), Line(3usize, 2usize), Line(2usize, 0usize)]
}

/// The two triangles of a plane, as triples of corner indices.
pub open spec fn plane_faces() -> Seq<Triangle<usize>> {
    seq![Triangle(0usize, 2usize, 1usize), Triangle(2usize, 3usize, 1usize)]
}

/// An axis-aligned cube centred on the origin, with edge `2 * half`.
pub struct Cube {
    pub half: u32,
}

/// Corner `k` of a cube: bit 0 of `k` picks `+x`, bit 1 `+y`, bit 2 `+z`.
pub open spec fn cube_corner(half: int, k: int) -> Vec4 {
    Vec4 {
        x: (if k % 2 == 1 { half } else { -half }) as i64,
        y: (if (k / 2) % 2 == 1 { half } else { -half }) as i64,
        z: (if (k / 4) % 2 == 1 { half } else { -half }) as i64,
        w: 1,
    }
}

impl Cube {
    pub fn new(half: u32) -> (r: Cube)
        ensures
            r.half == half,
    {
        Cube { half }
    }

    /// The eight corners, at `w == 1`.
    pub fn corners(&self) -> (r: Vec<Vec4>)
        ensures
            r@.len() == 8,
            forall|k: int| 0 <= k < 8 ==> #[trigger] r@[k] == cube_corner(self.half as int, k),
    {
        let h = self.half as i64;
        let mut r: Vec<Vec4> = Vec::new();
        let mut k: usize = 0;
        while k < 8
            invariant
                h == self.half,
                k <= 8,
                r@.len() == k,
                forall|j: int| 0 <= j < k ==> #[trigger] r@[j] == cube_corner(h as int, j),
            decreases 8 - k,
        {
            let x = if k % 2 == 1 {
                h
            } else {
                -h
            };
            let y = if (k / 2) % 2 == 1 {
                h
            } else {
                -h
            };
            let z = if (k / 4) % 2 == 1 {
                h
            } else {
                -h
            };
            r.push(Vec4 { x, y, z, w: 1 });
            k = k + 1;
        }
        r
    }

    /// The twelve edges, as pairs of corner indices.
    pub fn edges(&self) -> (r: Vec<Line<usize>>)
        ensures
            r@ == cube_edges(),
            r@.len() == 12,
            forall|k: int| 0 <= k < 12 ==> #[trigger] r@[k].0 < 8 && r@[k].1 < 8,
    {
        let mut primitives: Vec<Line<usize>> = Vec::new();
        primitives.push(Line(0, 1));
        primitives.push(Line(0, 2));
        primitives.push(Line(0, 4));
        primitives.push(Line(1, 3));
        primitives.push(Line(1, 5));
        primitives.push(Line(2, 3));
        primitives.push(Line(3, 7));
        primitives.push(Line(2, 6));
        primitives.push(Line(4, 5));
        primitives.push(Line(4, 6));
        primitives.push(Line(5, 7));
        primitives.push(Line(6, 7));
        proof {
            assert(primitives@ =~= cube_edges());
        }
        primitives
    }

    /// Two triangles per face, as triples of corner indices, counter-clockwise
    /// seen from outside.
    pub fn faces(&self) -> (r: Vec<Triangle<usize>>)
        ensures
            r@ == cube_faces(),
            r@.len() == 12,
            forall|k: int| 0 <= k < 12 ==> #[trigger] r@[k].0 < 8 && r@[k].1 < 8 && r@[k].2 < 8,
    {
        let mut primitives: Vec<Triangle<usize>> = Vec::new();
        primitives.push(Triangle(0, 2, 1));
        primitives.push(Triangle(2, 3, 1));
        primitives.push(Triangle(1, 3, 5));
        primitives.push(Triangle(3, 7, 5));
        primitives.push(Triangle(2, 6, 3));
        primitives.push(Triangle(3, 6, 7));
        primitives.push(Triangle(4, 5, 7));
        primitives.push(Triangle(4, 7, 6));
        primitives.push(Triangle(0, 4, 2));
        primitives.push(Triangle(2, 4, 6));
        primitives.push(Triangle(0, 1, 4));
        primitives.push(Triangle(1, 5, 4));
        proof {
            assert(primitives@ =~= cube_faces());
        }
        primitives
    }
}

impl ModelBuilder<Line<usize>, Vec4> for Cube {
    open spec fn primitives_built(&self, r: Seq<Line<usize>>) -> bool {
        r == cube_edges()
    }

    open spec fn vertices_built(&self, r: Seq<Vec4>) -> bool {
        r.len() == 8 && forall|k: int| 0 <= k < 8 ==> #[trigger] r[k] == cube_corner(self.half as int, k)
    }

    fn build_primitives(&self) -> Vec<Line<usize>> {
        self.edges()
    }

    fn build_vertices(&self) -> Vec<Vec4> {
        self.corners()
    }
}

impl ModelBuilder<Triangle<usize>, Vec4> for Cube {
    open spec fn primitives_built(&self, r: Seq<Triangle<usize>>) -> bool {
        r == cube_faces()
    }

    open spec fn vertices_built(&self, r: Seq<Vec4>) -> bool {
        r.len() == 8 && forall|k: int| 0 <= k < 8 ==> #[trigger] r[k] == cube_corner(self.half as int, k)
    }

    fn build_primitives(&self) -> Vec<Triangle<usize>> {
        self.faces()
    }

    fn build_vertices(&self) -> Vec<Vec4> {
        self.corners()
    }
}

/// A parallelogram centred on the origin and spanned by `a` and `b`: its
/// corners are `-a - b`, `a - b`, `-a + b` and `a + b`, at `w == 1`.
pub struct Plane {
    a: Vec4,
    b: Vec4,
}

/// Corner `k` of the plane spanned by `a` and `b`, for `k < 4`: bit 0 of
/// `k` picks `+a`, bit 1 picks `+b`.
pub open spec fn plane_corner(a: Vec4, b: Vec4, k: int) -> Vec4 {
    let pa = k % 2 == 1;
    let pb = k >= 2;
    Vec4 {
        x: ((if pa { a.x as int } else { -a.x }) + (if pb { b.x as int } else { -b.x })) as i64,
        y: ((if pa { a.y as int } else { -a.y }) + (if pb { b.y as int } else { -b.y })) as i64,
        z: ((if pa { a.z as int } else { -a.z }) + (if pb { b.z as int } else { -b.z })) as i64,
        w: 1,
    }
}

impl Plane {
    #[verifier::type_invariant]
    spec fn spans_in_range(&self) -> bool {
        self.a.bounded() && self.b.bounded()
    }

    pub closed spec fn span_a(&self) -> Vec4 {
        self.a
    }

    pub closed spec fn span_b(&self) -> Vec4 {
        self.b
    }

    pub fn new(a: Vec4, b: Vec4) -> (r: Plane)
        requires
            a.bounded(),
            b.bounded(),
        ensures
            r.span_a() == a,
            r.span_b() == b,
    {
        Plane { a, b }
    }

    /// The four corners.
    pub fn corners(&self) -> (r: Vec<Vec4>)
        ensures
            r@.len() == 4,
            forall|k: int| 0 <= k < 4 ==> #[trigger] r@[k] == plane_corner(self.span_a(), self.span_b(), k),
    {
        proof {
            use_type_invariant(self);
        }
        let (a, b) = (self.a, self.b);
        let mut r: Vec<Vec4> = Vec::new();
        r.push(Vec4 { x: -a.x - b.x, y: -a.y - b.y, z: -a.z - b.z, w: 1 });
        r.push(Vec4 { x: a.x - b.x, y: a.y - b.y, z: a.z - b.z, w: 1 });
        r.push(Vec4 { x: -a.x + b.x, y: -a.y + b.y, z: -a.z + b.z, w: 1 });
        r.push(Vec4 { x: a.x + b.x, y: a.y + b.y, z: a.z + b.z, w: 1 });
        proof {
            assert(r@[0] == plane_corner(a, b, 0));
            assert(r@[1] == plane_corner(a, b, 1));
            assert(r@[2] == plane_corner(a, b, 2));
            assert(r@[3] == plane_corner(a, b, 3));
        }
        r
    }

    /// The four edges, as pairs of corner indices.
    pub fn edges(&self) -> (r: Vec<Line<usize>>)
        ensures
            r@ == plane_edges(),
            r@.len() == 4,
            forall|k: int| 0 <= k < 4 ==> #[trigger] r@[k].0 < 4 && r@[k].1 < 4,
    {
        let mut primitives: Vec<Line<usize>> = Vec::new();
        primitives.push(Line(0, 1));
        primitives.push(Line(1, 3));
        primitives.push(Line(3, 2));
        primitives.push(Line(2, 0));
        proof {
            assert(primitives@ =~= plane_edges());
        }
        primitives
    }

    /// Two triangles, as triples of corner indices.
    pub fn faces(&self) -> (r: Vec<Triangle<usize>>)
        ensures
            r@ == plane_faces(),
            r@.len() == 2,
            forall|k: int| 0 <= k < 2 ==> #[trigger] r@[k].0 < 4 && r@[k].1 < 4 && r@[k].2 < 4,
    {
        let mut primitives: Vec<Triangle<usize>> = Vec::new();
        primitives.push(Triangle(0, 2, 1));
        primitives.push(Triangle(2, 3, 1));
        proof {
            assert(primitives@ =~= plane_faces());
        }
        primitives
    }
}

impl ModelBuilder<Line<usize>, Vec4> for Plane {
    open spec fn primitives_built(&self, r: Seq<Line<usize>>) -> bool {
        r == plane_edges()
    }

    open spec fn vertices_built(&self, r: Seq<Vec4>) -> bool {
        r.len() == 4 && forall|k: int| 0 <= k < 4 ==> #[trigger] r[k] == plane_corner(self.span_a(), self.span_b(), k)
    }

    fn build_primitives(&self) -> Vec<Line<usize>> {
        self.edges()
    }

    fn build_vertices(&self) -> Vec<Vec4> {
        self.corners()
    }
}

impl ModelBuilder<Triangle<usize>, Vec4> for Plane {
    open spec fn primitives_built(&self, r: Seq<Triangle<usize>>) -> bool {
        r == plane_faces()
    }

    open spec fn vertices_built(&self, r: Seq<Vec4>) -> bool {
        r.len() == 4 && forall|k: int| 0 <= k < 4 ==> #[trigger] r[k] == plane_corner(self.span_a(), self.span_b(), k)
    }

    fn build_primitives(&self) -> Vec<Triangle<usize>> {
        self.faces()
    }

    fn build_vertices(&self) -> Vec<Vec4> {
        self.corners()
    }
}

} // verus!
