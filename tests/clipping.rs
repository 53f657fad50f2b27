use softraster::clipping::{clip_line, clip_triangle, compute_outcode, ClippedTriangle};
use softraster::primitives::{Line, Triangle, WindingOrder};
use softraster::vertex::{ColorVertex, Vec4};

fn vertex(x: i64, y: i64, z: i64, w: i64) -> ColorVertex {
    ColorVertex { position: Vec4::new(x, y, z, w), color: Vec4::new(0, 0, 0, 0) }
}

fn colored(x: i64, y: i64, z: i64, w: i64, c: i64) -> ColorVertex {
    ColorVertex { position: Vec4::new(x, y, z, w), color: Vec4::new(c, c, c, c) }
}

#[test]
fn trivial_line_accept() {
    let line = Line(vertex(0, 0, 500, 1000), vertex(500, 500, 500, 1000));
    assert_eq!(clip_line(line), Some(line));
}

#[test]
fn trivial_line_reject() {
    let line = Line(vertex(2000, 0, 0, 1000), vertex(3000, 0, 0, 1000));
    assert_eq!(clip_line(line), None);
}

#[test]
fn line_crosses_right_plane() {
    let line = Line(colored(-1000, 0, 0, 1000, 0), colored(2000, 0, 0, 1000, 300));
    let clipped = clip_line(line).unwrap();
    assert_eq!(clipped.0, line.0);
    assert_eq!(clipped.1.position, Vec4::new(1000, 0, 0, 1000));
    // two thirds of the way from the first end: every attribute is blended
    assert_eq!(clipped.1.color, Vec4::new(200, 200, 200, 200));
}

#[test]
fn line_crosses_left_and_top_planes() {
    let line = Line(vertex(-1500, 0, 0, 1000), vertex(0, 1500, 0, 1000));
    let clipped = clip_line(line).unwrap();
    for end in [clipped.0, clipped.1] {
        let p = end.position;
        assert!(-p.w <= p.x && p.x <= p.w);
        assert!(-p.w <= p.y && p.y <= p.w);
        assert!(-p.w <= p.z && p.z <= p.w);
    }
    assert_eq!(clipped.0.position, Vec4::new(-1000, 500, 0, 1000));
    assert_eq!(clipped.1.position, Vec4::new(-500, 1000, 0, 1000));
}

#[test]
fn line_outside_two_planes_rejected() {
    // outside LEFT at one end and TOP at the other, passing the frustum's corner
    let line = Line(vertex(-3000, 900, 0, 1000), vertex(-900, 3000, 0, 1000));
    assert_eq!(clip_line(line), None);
}

#[test]
fn outcode_bits() {
    assert_eq!(compute_outcode(Vec4::new(0, 0, 0, 1)).bits(), 0);
    assert_eq!(compute_outcode(Vec4::new(-2, 0, 0, 1)).bits(), 1);
    assert_eq!(compute_outcode(Vec4::new(2, 0, 0, 1)).bits(), 2);
    assert_eq!(compute_outcode(Vec4::new(0, -2, 0, 1)).bits(), 4);
    assert_eq!(compute_outcode(Vec4::new(0, 2, 0, 1)).bits(), 8);
    assert_eq!(compute_outcode(Vec4::new(0, 0, -2, 1)).bits(), 16);
    assert_eq!(compute_outcode(Vec4::new(0, 0, 2, 1)).bits(), 32);
    // a position behind the eye violates both planes of an axis
    assert_eq!(compute_outcode(Vec4::new(0, 0, 0, -1)).bits(), 63);
}

#[test]
fn triangle_one_offender_near_clip() {
    let v0 = vertex(0, 0, -2000, 1000);
    let v1 = vertex(1000, 0, 0, 1000);
    let v2 = vertex(0, 1000, 0, 1000);
    match clip_triangle(Triangle(v0, v1, v2)) {
        ClippedTriangle::Two(t1, t2) => {
            let v0a = vertex(500, 0, -1000, 1000);
            let v0b = vertex(0, 500, -1000, 1000);
            assert_eq!(t1, Triangle(v0a, v1, v2));
            assert_eq!(t2, Triangle(v0b, v0a, v2));
            for v in [t1.0, t2.0, t2.1] {
                assert_eq!(v.position.z, -v.position.w);
            }
        },
        _ => panic!("expected two triangles"),
    }
}

#[test]
fn triangle_offender_in_last_place_is_clipped() {
    let v0 = vertex(1000, 0, 0, 1000);
    let v1 = vertex(0, 1000, 0, 1000);
    let v2 = vertex(0, 0, -2000, 1000);
    match clip_triangle(Triangle(v0, v1, v2)) {
        ClippedTriangle::Two(t1, t2) => {
            let a = vertex(500, 0, -1000, 1000);
            let b = vertex(0, 500, -1000, 1000);
            assert_eq!(t1, Triangle(a, v0, v1));
            assert_eq!(t2, Triangle(b, a, v1));
        },
        _ => panic!("expected two triangles"),
    }
}

#[test]
fn triangle_two_offenders_near_clip() {
    let v0 = vertex(0, 0, -2000, 1000);
    let v1 = vertex(1000, 0, -2000, 1000);
    let v2 = vertex(0, 1000, 0, 1000);
    match clip_triangle(Triangle(v0, v1, v2)) {
        ClippedTriangle::One(t) => {
            assert_eq!(t.2, v2);
            assert_eq!(t.0.position, Vec4::new(0, 500, -1000, 1000));
            assert_eq!(t.1.position, Vec4::new(500, 500, -1000, 1000));
        },
        _ => panic!("expected one triangle"),
    }
}

#[test]
fn triangle_inside_passes_unchanged() {
    let t = Triangle(vertex(0, 0, 0, 1000), vertex(1000, 0, 0, 1000), vertex(0, 1000, 0, 1000));
    assert_eq!(clip_triangle(t), ClippedTriangle::One(t));
}

#[test]
fn triangle_outside_one_plane_rejected() {
    let t = Triangle(vertex(0, 0, 2000, 1000), vertex(1000, 0, 3000, 1000), vertex(0, 1000, 1500, 1000));
    assert_eq!(clip_triangle(t), ClippedTriangle::Empty);
}

#[test]
fn clipped_pieces_keep_winding() {
    // at w == 1 both cuts round to the same grid point, which would leave
    // the second piece degenerate: it is dropped, the first piece stays
    let v0 = vertex(0, 0, -3, 1);
    let v1 = vertex(1, 0, 0, 1);
    let v2 = vertex(0, 1, 0, 1);
    let t = Triangle(v0, v1, v2);
    assert_eq!(t.get_winding(), WindingOrder::CounterClockwise);
    match clip_triangle(t) {
        ClippedTriangle::One(piece) => {
            assert_eq!(piece, Triangle(vertex(0, 0, -1, 1), v1, v2));
            assert_eq!(piece.get_winding(), WindingOrder::CounterClockwise);
        },
        other => panic!("expected one triangle, got {:?}", other),
    }
}
