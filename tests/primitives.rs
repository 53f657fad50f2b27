use softraster::primitives::{Triangle, WindingOrder};
use softraster::raster::{first_pixel_of, span_of};
use softraster::vertex::{lerp_down, lerp_up, ColorVertex, Vec4};

fn at(x: i64, y: i64, z: i64, w: i64) -> ColorVertex {
    ColorVertex { position: Vec4::new(x, y, z, w), color: Vec4::new(0, 0, 0, 0) }
}

#[test]
fn triangle_front_face() {
    // a triangle seen from a perspective camera, positions scaled by 10^7
    let triangle = Triangle(
        at(5000000, -2534044, 5578419, 7565274),
        at(-5000000, -2534044, 5578419, 7565274),
        at(5000000, -6601411, 14732163, 16700728),
    );
    assert_eq!(WindingOrder::CounterClockwise, triangle.get_winding());
}

#[test]
fn winding_orders() {
    let ccw = Triangle(at(0, 0, 0, 1), at(1, 0, 0, 1), at(0, 1, 0, 1));
    assert_eq!(ccw.get_winding(), WindingOrder::CounterClockwise);
    let cw = Triangle(at(0, 0, 0, 1), at(0, 1, 0, 1), at(1, 0, 0, 1));
    assert_eq!(cw.get_winding(), WindingOrder::Clockwise);
    let line = Triangle(at(0, 0, 0, 1), at(1, 1, 0, 1), at(2, 2, 0, 1));
    assert_eq!(line.get_winding(), WindingOrder::Degenerate);
    // the divide by w is part of the test: these points are collinear after it
    let divided = Triangle(at(0, 0, 0, 1), at(2, 2, 0, 2), at(6, 6, 0, 3));
    assert_eq!(divided.get_winding(), WindingOrder::Degenerate);
    // a negative w mirrors the position through the origin
    let mirrored = Triangle(at(0, 0, 0, 1), at(-1, 0, 0, -1), at(0, 1, 0, 1));
    assert_eq!(mirrored.get_winding(), WindingOrder::CounterClockwise);
}

#[test]
fn interpolation_affinity() {
    let a = ColorVertex { position: Vec4::new(-10, 4, 7, 3), color: Vec4::new(0, 255, 10, 1) };
    let b = ColorVertex { position: Vec4::new(20, -8, 7, 9), color: Vec4::new(255, 0, 30, 1) };
    assert_eq!(a.interpolate(&b, 0, 7), a);
    assert_eq!(a.interpolate(&b, 7, 7), b);
    let mid = a.interpolate(&b, 1, 3);
    assert_eq!(mid.position, Vec4::new(0, 0, 7, 5));
    assert_eq!(mid.color, Vec4::new(85, 170, 16, 1));
}

#[test]
fn rounding_directions() {
    assert_eq!(lerp_down(0, 1, 1, 2), 0);
    assert_eq!(lerp_up(0, 1, 1, 2), 1);
    assert_eq!(lerp_down(0, -1, 1, 2), -1);
    assert_eq!(lerp_up(0, -1, 1, 2), 0);
    assert_eq!(lerp_down(-7, 5, 3, 3), 5);
}

#[test]
fn pixel_centre_rule() {
    // pixel p has its centre at 16 p + 8
    assert_eq!(first_pixel_of(8), 0);
    assert_eq!(first_pixel_of(9), 1);
    assert_eq!(first_pixel_of(24), 1);
    assert_eq!(first_pixel_of(-8), -1);
    assert_eq!(first_pixel_of(-9), -1);
    assert_eq!(span_of(8, 40, 100), (0, 2));
    assert_eq!(span_of(-100, 40, 100), (0, 2));
    assert_eq!(span_of(40, 10_000, 4), (2, 4));
    // two spans that meet at an edge do not share a pixel
    let (a0, a1) = span_of(5, 57, 100);
    let (b0, b1) = span_of(57, 90, 100);
    assert_eq!(a1, b0);
    assert!(a0 < a1 && b0 < b1);
}
