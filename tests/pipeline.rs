use softraster::model::{Cube, IndexedLineList, IndexedTriangleList, ModelAdaptor, ModelBuilder};
use softraster::pipeline::{FillMode, Pipeline};
use softraster::shaders::BasicEffect;
use softraster::primitives::{Line, Triangle, WindingOrder};
use softraster::raster::{to_screen_coords, ScreenVertex, DEPTH_ONE};
use softraster::target::{Color, FrameBuffer, RenderTarget, DEPTH_FAR};
use softraster::vertex::{ColorVertex, Vec4};

/// Passes vertices through and paints their colour channels.
fn flat() -> BasicEffect {
    BasicEffect::identity()
}

const BLACK: Color = Color { r: 0, g: 0, b: 0, a: 255 };

fn vertex(x: i64, y: i64, z: i64, w: i64, c: (i64, i64, i64)) -> ColorVertex {
    ColorVertex { position: Vec4::new(x, y, z, w), color: Vec4::new(c.0, c.1, c.2, 255) }
}

fn painted(target: &FrameBuffer) -> usize {
    let (w, h) = target.size();
    let mut n = 0;
    for y in 0..h {
        for x in 0..w {
            if target.color(x, y) != BLACK {
                n += 1;
            }
        }
    }
    n
}

#[test]
fn back_face_cull() {
    let pipeline = Pipeline::new(flat());
    assert_eq!(pipeline.front_face, WindingOrder::CounterClockwise);
    let a = vertex(0, 0, 500, 1000, (255, 0, 0));
    let b = vertex(1000, 0, 500, 1000, (255, 0, 0));
    let c = vertex(0, 1000, 500, 1000, (255, 0, 0));

    let mut front = FrameBuffer::new(20, 20, BLACK);
    pipeline.draw_triangles(&[Triangle(a, b, c)], &mut front);
    assert!(painted(&front) > 0);

    let mut back = FrameBuffer::new(20, 20, BLACK);
    pipeline.draw_triangles(&[Triangle(a, c, b)], &mut back);
    assert_eq!(painted(&back), 0);
}

#[test]
fn back_face_cull_with_clockwise_front() {
    let mut pipeline = Pipeline::new(flat());
    pipeline.front_face = WindingOrder::Clockwise;
    let a = vertex(0, 0, 500, 1000, (255, 0, 0));
    let b = vertex(1000, 0, 500, 1000, (255, 0, 0));
    let c = vertex(0, 1000, 500, 1000, (255, 0, 0));

    let mut ccw = FrameBuffer::new(20, 20, BLACK);
    pipeline.draw_triangles(&[Triangle(a, b, c)], &mut ccw);
    let mut cw = FrameBuffer::new(20, 20, BLACK);
    pipeline.draw_triangles(&[Triangle(a, c, b)], &mut cw);
    assert_eq!(painted(&ccw), 0);
    assert!(painted(&cw) > 0);
}

fn screen_triangle(z: i64, c: (i64, i64, i64)) -> Triangle<ColorVertex> {
    Triangle(vertex(-1000, -1000, z, 1000, c), vertex(3000, -1000, z, 1000, c), vertex(-1000, 3000, z, 1000, c))
}

#[test]
fn depth_occlusion() {
    let pipeline = Pipeline::new(flat());
    let far = screen_triangle(800, (255, 0, 0));
    let near = screen_triangle(500, (0, 255, 0));
    let green = Color::rgba(0, 255, 0, 255);
    let near_depth = 500 * DEPTH_ONE / 1000;

    let mut target = FrameBuffer::new(20, 20, BLACK);
    assert_eq!(target.depth(10, 10), DEPTH_FAR);
    pipeline.draw_triangles(&[far], &mut target);
    pipeline.draw_triangles(&[near], &mut target);
    assert_eq!(target.color(10, 10), green);
    assert_eq!(target.depth(10, 10), near_depth);

    let mut reversed = FrameBuffer::new(20, 20, BLACK);
    pipeline.draw_triangles(&[near], &mut reversed);
    pipeline.draw_triangles(&[far], &mut reversed);
    assert_eq!(reversed.color(10, 10), green);
    assert_eq!(reversed.depth(10, 10), near_depth);
}

#[test]
fn vector4_to_screen_coords() {
    let v = vertex(0, 0, 500, 1000, (0, 0, 0));
    let s = to_screen_coords(&v, 100, 50);
    // the centre of the view maps to the centre of the screen, in 1/16 pixels
    assert_eq!(s.x, 50 * 16);
    assert_eq!(s.y, 25 * 16);
    assert_eq!(s.depth, DEPTH_ONE / 2);
    let corner = to_screen_coords(&vertex(-1000, 1000, 0, 1000, (0, 0, 0)), 100, 50);
    assert_eq!((corner.x, corner.y), (0, 0));
    let other = to_screen_coords(&vertex(2, -2, 0, 2, (0, 0, 0)), 100, 50);
    assert_eq!((other.x, other.y), (100 * 16, 50 * 16));
}

#[test]
fn screen_colors_are_premultiplied_by_inverse_w() {
    let v = vertex(0, 0, 0, 2, (100, 0, 0));
    let s: ScreenVertex = to_screen_coords(&v, 10, 10);
    assert_eq!(s.inv_w, (1i64 << 32) / 2);
    assert_eq!(s.color.x, 100 * (1i64 << 32) / 2);
}

#[test]
fn triangle_covers_predictable_rectangle() {
    // a full-screen pair of triangles at z = 1 paints every pixel exactly once
    let pipeline = Pipeline::new(flat());
    let c = (0, 0, 255);
    let a = vertex(-1000, -1000, 1000, 1000, c);
    let b = vertex(1000, -1000, 1000, 1000, c);
    let d = vertex(1000, 1000, 1000, 1000, c);
    let e = vertex(-1000, 1000, 1000, 1000, c);
    let mut target = FrameBuffer::new(16, 12, BLACK);
    pipeline.draw_triangles(&[Triangle(a, b, d), Triangle(a, d, e)], &mut target);
    assert_eq!(painted(&target), 16 * 12);
}

#[test]
fn shared_edge_pixels_drawn_once() {
    // with depth testing, a second write at equal depth fails: count the
    // pixels that each triangle of a square wins alone
    let pipeline = Pipeline::new(flat());
    let a = vertex(-800, -600, 0, 1000, (255, 0, 0));
    let b = vertex(700, -600, 0, 1000, (255, 0, 0));
    let d = vertex(700, 900, 0, 1000, (255, 0, 0));
    let e = vertex(-800, 900, 0, 1000, (255, 0, 0));
    let mut first = FrameBuffer::new(32, 32, BLACK);
    pipeline.draw_triangles(&[Triangle(a, b, d)], &mut first);
    let mut second = FrameBuffer::new(32, 32, BLACK);
    pipeline.draw_triangles(&[Triangle(a, d, e)], &mut second);
    let mut both = FrameBuffer::new(32, 32, BLACK);
    pipeline.draw_triangles(&[Triangle(a, b, d), Triangle(a, d, e)], &mut both);
    assert_eq!(painted(&first) + painted(&second), painted(&both));
}

#[test]
fn lines_draw_inside_target() {
    let pipeline = Pipeline::new(flat());
    let mut target = FrameBuffer::new(10, 10, BLACK);
    let line = Line(vertex(-2000, 0, 0, 1000, (255, 255, 255)), vertex(2000, 0, 0, 1000, (255, 255, 255)));
    pipeline.draw_lines(&[line], &mut target);
    // the clipped line spans the screen: one pixel per column on row 5
    let white = Color::rgba(255, 255, 255, 255);
    for x in 0..10 {
        assert_eq!(target.color(x, 5), white);
    }
    assert_eq!(painted(&target), 10);
}

#[test]
fn wireframe_triangle_draws_edges_only() {
    let mut pipeline = Pipeline::new(flat());
    pipeline.fill_mode = FillMode::Wireframe;
    let c = (255, 255, 255);
    let t = Triangle(vertex(-900, -900, 0, 1000, c), vertex(900, -900, 0, 1000, c), vertex(-900, 900, 0, 1000, c));
    let mut wire = FrameBuffer::new(40, 40, BLACK);
    pipeline.draw_triangles(&[t], &mut wire);
    pipeline.fill_mode = FillMode::Solid;
    let mut solid = FrameBuffer::new(40, 40, BLACK);
    pipeline.draw_triangles(&[t], &mut solid);
    assert!(painted(&wire) > 0);
    assert!(painted(&wire) < painted(&solid));
}

#[test]
fn indexed_cube_draws() {
    let pipeline = Pipeline::new(flat());
    let colored = |p: Vec4| ColorVertex { position: Vec4::new(p.x, p.y, p.z + 2000, 3000), color: Vec4::new(255, 255, 0, 255) };
    let lines: IndexedLineList<ColorVertex> = IndexedLineList::from_builder(ModelAdaptor::new(Cube::new(500), colored));
    assert_eq!(lines.vertices.len(), 8);
    assert_eq!(lines.primitives.len(), 12);
    let mut target = FrameBuffer::new(30, 30, BLACK);
    pipeline.draw_indexed_lines(&lines.vertices, &lines.primitives, &mut target);
    assert!(painted(&target) > 0);

    let faces: IndexedTriangleList<ColorVertex> = IndexedTriangleList::from_builder(ModelAdaptor::new(Cube::new(500), colored));
    assert_eq!(faces.primitives.len(), 12);
    let mut solid = FrameBuffer::new(30, 30, BLACK);
    pipeline.draw_indexed_triangles(&faces.vertices, &faces.primitives, &mut solid);
    assert!(painted(&solid) >= painted(&target));
}

#[test]
fn model_adaptor_transforms_in_order() {
    let adaptor = ModelAdaptor::new(Cube::new(3), |p: Vec4| p.x + 10 * p.y + 100 * p.z);
    let values = <ModelAdaptor<Line<usize>, Vec4, Cube, i64, _> as ModelBuilder<Line<usize>, i64>>::build_vertices(&adaptor);
    assert_eq!(values, vec![-333, -327, -273, -267, 267, 273, 327, 333]);
}

#[test]
fn frame_buffer_depth_test_and_clear() {
    let mut target = FrameBuffer::new(4, 3, BLACK);
    assert_eq!(target.size(), (4, 3));
    assert!(target.test_and_set_depth((3, 2), 10));
    assert!(!target.test_and_set_depth((3, 2), 10));
    assert!(target.test_and_set_depth((3, 2), -5));
    assert_eq!(target.depth(3, 2), -5);
    assert_eq!(target.depth(2, 2), DEPTH_FAR);
    target.put_pixel((1, 1), Color::rgba(1, 2, 3, 4));
    assert_eq!(target.color(1, 1), Color::rgba(1, 2, 3, 4));
    assert_eq!(target.color(0, 1), BLACK);
    let white = Color::rgba(255, 255, 255, 255);
    target.clear(white);
    assert_eq!(target.depth(3, 2), DEPTH_FAR);
    assert_eq!(target.color(1, 1), white);
}

#[test]
fn indexed_drawing_matches_assembled_drawing() {
    let pipeline = Pipeline::new(flat());
    let colored = |p: Vec4| ColorVertex { position: Vec4::new(p.x + 100, p.y - 50, p.z + 2000, 3000), color: Vec4::new(p.x.abs() % 256, 90, 200, 255) };
    let faces: IndexedTriangleList<ColorVertex> = IndexedTriangleList::from_builder(ModelAdaptor::new(Cube::new(700), colored));
    let assembled: Vec<Triangle<ColorVertex>> = faces.primitives.iter().map(|t| t.unindex(&faces.vertices)).collect();
    let mut indexed = FrameBuffer::new(24, 24, BLACK);
    pipeline.draw_indexed_triangles(&faces.vertices, &faces.primitives, &mut indexed);
    let mut direct = FrameBuffer::new(24, 24, BLACK);
    pipeline.draw_triangles(&assembled, &mut direct);
    for y in 0..24 {
        for x in 0..24 {
            assert_eq!(indexed.color(x, y), direct.color(x, y));
            assert_eq!(indexed.depth(x, y), direct.depth(x, y));
        }
    }
    assert!(painted(&indexed) > 0);

    let lines: IndexedLineList<ColorVertex> = IndexedLineList::from_builder(ModelAdaptor::new(Cube::new(700), colored));
    let assembled: Vec<Line<ColorVertex>> = lines.primitives.iter().map(|l| l.unindex(&lines.vertices)).collect();
    let mut indexed = FrameBuffer::new(24, 24, BLACK);
    pipeline.draw_indexed_lines(&lines.vertices, &lines.primitives, &mut indexed);
    let mut direct = FrameBuffer::new(24, 24, BLACK);
    pipeline.draw_lines(&assembled, &mut direct);
    for y in 0..24 {
        for x in 0..24 {
            assert_eq!(indexed.color(x, y), direct.color(x, y));
        }
    }
}

#[test]
fn depth_is_nearest_fragment() {
    // three overlapping full-screen triangles in one call: the nearest wins
    let pipeline = Pipeline::new(flat());
    let mut target = FrameBuffer::new(8, 8, BLACK);
    pipeline.draw_triangles(
        &[screen_triangle(600, (255, 0, 0)), screen_triangle(200, (0, 0, 255)), screen_triangle(400, (0, 255, 0))],
        &mut target,
    );
    for y in 0..8 {
        for x in 0..8 {
            assert_eq!(target.color(x, y), Color::rgba(0, 0, 255, 255));
            assert_eq!(target.depth(x, y), 200 * DEPTH_ONE / 1000);
        }
    }
}

#[test]
fn negative_w_pieces_are_drawn() {
    // every vertex at w < 0; the near-plane cut leaves two pieces, still at
    // w < 0, that the divide maps onto the screen through their negation
    let pipeline = Pipeline::new(flat());
    let c = (255, 0, 0);
    let o = vertex(0, 0, -3000, -1000, c);
    let p = vertex(3000, 2000, 2000, -1000, c);
    let q = vertex(-3000, -3000, 2000, -1000, c);
    let t = Triangle(o, q, p);
    assert_eq!(t.get_winding(), WindingOrder::CounterClockwise);
    let mut target = FrameBuffer::new(20, 20, BLACK);
    pipeline.draw_triangles(&[t], &mut target);
    assert!(painted(&target) > 0);
}

#[test]
fn mixed_sign_w_triangle_is_drawn() {
    // one vertex at w < 0: each vertex is divided by its own w
    let pipeline = Pipeline::new(flat());
    let c = (0, 255, 0);
    let t = Triangle(vertex(0, 0, 0, 1000, c), vertex(1000, 0, 0, 1000, c), vertex(0, -1000, 2000, -1000, c));
    assert_eq!(t.get_winding(), WindingOrder::CounterClockwise);
    let mut target = FrameBuffer::new(20, 20, BLACK);
    pipeline.draw_triangles(&[t], &mut target);
    // the vertices map to the screen points (10, 10), (20, 10) and (10, 0)
    assert!(painted(&target) > 0);
    assert_eq!(target.color(12, 7), Color::rgba(0, 255, 0, 255));
    assert_eq!(target.color(5, 15), BLACK);
}
