use softraster::pipeline::{shading_input_of, Effect, Pipeline};
use softraster::primitives::{Line, Triangle, WindingOrder};
use softraster::raster::ScreenVertex;
use softraster::shaders::{vector4_to_color, BasicEffect, Matrix, MATRIX_ONE};
use softraster::target::{Color, FrameBuffer};
use softraster::vertex::{ColorVertex, Vec4};

fn vertex(x: i64, y: i64, z: i64, w: i64) -> ColorVertex {
    ColorVertex { position: Vec4::new(x, y, z, w), color: Vec4::new(10, 20, 30, 255) }
}

const BLACK: Color = Color { r: 0, g: 0, b: 0, a: 255 };

fn same_frame(a: &FrameBuffer, b: &FrameBuffer, width: u32, height: u32) -> bool {
    (0..height).all(|y| (0..width).all(|x| a.color(x, y) == b.color(x, y) && a.depth(x, y) == b.depth(x, y)))
}

#[test]
fn identity_effect_keeps_vertices() {
    let effect = BasicEffect::identity();
    let v = vertex(-7, 8, 900, 1000);
    assert_eq!(effect.vs(&v), v);
}

#[test]
fn matrix_scales_and_translates() {
    let m = Matrix {
        x: Vec4::new(2 * MATRIX_ONE, 0, 0, 3 * MATRIX_ONE),
        y: Vec4::new(0, MATRIX_ONE / 2, 0, 0),
        z: Vec4::new(0, 0, MATRIX_ONE, 0),
        w: Vec4::new(0, 0, 0, MATRIX_ONE),
    };
    assert!(m.has_entries_ok());
    assert_eq!(m.transform(&Vec4::new(5, -7, 1, 2)), Vec4::new(16, -4, 1, 2));
    let effect = BasicEffect::new(m);
    let out = effect.vs(&vertex(5, -7, 1, 2));
    assert_eq!(out.position, Vec4::new(16, -4, 1, 2));
    assert_eq!(out.color, Vec4::new(10, 20, 30, 255));
}

#[test]
fn out_of_range_matrix_entries_detected() {
    let mut m = Matrix::identity();
    m.z.w = i64::MAX;
    assert!(!m.has_entries_ok());
}

#[test]
fn colour_channels_clamped() {
    assert_eq!(vector4_to_color(&Vec4::new(-5, 0, 128, 300)), Color::rgba(0, 0, 128, 255));
    let effect = BasicEffect::identity();
    let v = ColorVertex { position: Vec4::new(0, 0, 0, 1), color: Vec4::new(255, 256, 1, -1) };
    assert_eq!(effect.ps(&v), Color::rgba(255, 255, 1, 0));
}

#[test]
fn vertex_affine_operations() {
    let a = ColorVertex { position: Vec4::new(1, -2, 3, 4), color: Vec4::new(5, 6, 7, 8) };
    let b = ColorVertex { position: Vec4::new(10, 20, -30, 40), color: Vec4::new(-1, 0, 1, 2) };
    assert_eq!(a.add(&b), ColorVertex { position: Vec4::new(11, 18, -27, 44), color: Vec4::new(4, 6, 8, 10) });
    assert_eq!(a.sub(&b), ColorVertex { position: Vec4::new(-9, -22, 33, -36), color: Vec4::new(6, 6, 6, 6) });
    assert_eq!(a.mul(3), ColorVertex { position: Vec4::new(3, -6, 9, 12), color: Vec4::new(15, 18, 21, 24) });
    assert_eq!(b.div(4), ColorVertex { position: Vec4::new(2, 5, -8, 10), color: Vec4::new(-1, 0, 0, 0) });
}

#[test]
fn perspective_correct_recovery() {
    // a colour of 100 at 1/w = 1/4, interpolated and divided back
    let it = ScreenVertex { x: 0, y: 0, depth: 77, inv_w: 1 << 30, color: Vec4::new(100 << 30, 0, 255 << 30, 1 << 30) };
    let v = shading_input_of(3, 4, &it);
    assert_eq!(v.position, Vec4::new(3, 4, 77, 1));
    assert_eq!(v.color, Vec4::new(100, 0, 255, 1));
}

#[test]
fn culled_triangle_leaves_target_unchanged() {
    let pipeline = Pipeline::new(BasicEffect::identity());
    assert_eq!(pipeline.front_face, WindingOrder::CounterClockwise);
    let clockwise = Triangle(vertex(0, 0, 500, 1000), vertex(0, 1000, 500, 1000), vertex(1000, 0, 500, 1000));
    let mut target = FrameBuffer::new(8, 8, BLACK);
    pipeline.triangle_processor(clockwise, &mut target);
    assert!(same_frame(&target, &FrameBuffer::new(8, 8, BLACK), 8, 8));
    let degenerate = Triangle(vertex(0, 0, 500, 1000), vertex(500, 500, 500, 1000), vertex(1000, 1000, 500, 1000));
    pipeline.triangle_processor(degenerate, &mut target);
    assert!(same_frame(&target, &FrameBuffer::new(8, 8, BLACK), 8, 8));
}

#[test]
fn rejected_line_leaves_target_unchanged() {
    let pipeline = Pipeline::new(BasicEffect::identity());
    let mut target = FrameBuffer::new(8, 8, BLACK);
    pipeline.line_processor(Line(vertex(2000, 0, 0, 1000), vertex(3000, 500, 0, 1000)), &mut target);
    assert!(same_frame(&target, &FrameBuffer::new(8, 8, BLACK), 8, 8));
    // a coordinate out of range rejects the line
    pipeline.line_processor(Line(vertex(0, 0, 0, i64::MAX), vertex(0, 0, 0, 1)), &mut target);
    assert!(same_frame(&target, &FrameBuffer::new(8, 8, BLACK), 8, 8));
}

#[test]
fn line_processor_draws_clipped_line() {
    let pipeline = Pipeline::new(BasicEffect::identity());
    let mut target = FrameBuffer::new(8, 8, BLACK);
    pipeline.line_processor(Line(vertex(0, -3000, 0, 1000), vertex(0, 3000, 0, 1000)), &mut target);
    // clipped to y = -w and y = w, the line runs up column 4 from the
    // bottom edge (row 8, off the target) to the top edge, which the
    // half-open rule leaves out: rows 7 down to 1
    for y in 1..8 {
        assert_eq!(target.color(4, y), Color::rgba(10, 20, 30, 255));
    }
    assert_eq!(target.color(4, 0), BLACK);
}
