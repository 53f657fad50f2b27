use softraster::bitmap::Bitmap;
use softraster::sampling::{sample_texture, UV_ONE};
use softraster::model::{ModelBuilder, Plane};
use softraster::primitives::{Line, Triangle};
use softraster::target::Color;
use softraster::vertex::Vec4;

const WHITE: Color = Color { r: 255, g: 255, b: 255, a: 255 };
const BLACK: Color = Color { r: 0, g: 0, b: 0, a: 255 };

fn assert_dimensions(width: usize, height: usize, bitmap: &Bitmap) {
    assert_eq!(width, bitmap.width());
    assert_eq!(height, bitmap.height());
}

#[test]
fn bitmap_from_color() {
    let width = 32;
    let height = 16;
    let color = WHITE;

    let bitmap = Bitmap::from_color(width, height, color);

    assert_dimensions(width, height, &bitmap);
    for i in bitmap.data().iter() {
        assert_eq!(color, *i);
    }
}

#[test]
fn bitmap_from_function() {
    let width = 32;
    let height = 16;
    let color_function = |x: usize, y: usize| if (x + y) % 2 == 1 { WHITE } else { BLACK };

    let bitmap = Bitmap::from_function(width, height, color_function);

    assert_dimensions(width, height, &bitmap);
    for x in 0..width {
        for y in 0..height {
            assert_eq!(color_function(x, y), bitmap.data_at(x, y));
        }
    }
}

#[test]
fn bitmap_set_data_at() {
    let mut bitmap = Bitmap::from_color(3, 2, BLACK);
    bitmap.set_data_at(2, 1, WHITE);
    assert_eq!(bitmap.data_at(2, 1), WHITE);
    assert_eq!(bitmap.data()[5], WHITE);
    assert_eq!(bitmap.data().iter().filter(|c| **c == WHITE).count(), 1);
}

#[test]
fn plane_corners_and_primitives() {
    let plane = Plane::new(Vec4::new(2, 0, 0, 0), Vec4::new(0, 3, 1, 0));
    let corners = <Plane as ModelBuilder<Triangle<usize>, Vec4>>::build_vertices(&plane);
    assert_eq!(
        corners,
        vec![Vec4::new(-2, -3, -1, 1), Vec4::new(2, -3, -1, 1), Vec4::new(-2, 3, 1, 1), Vec4::new(2, 3, 1, 1)]
    );
    let faces = <Plane as ModelBuilder<Triangle<usize>, Vec4>>::build_primitives(&plane);
    assert_eq!(faces, vec![Triangle(0, 2, 1), Triangle(2, 3, 1)]);
    let edges = <Plane as ModelBuilder<Line<usize>, Vec4>>::build_primitives(&plane);
    assert_eq!(edges, vec![Line(0, 1), Line(1, 3), Line(3, 2), Line(2, 0)]);
}

#[test]
fn sample_texture_clamps_and_picks_nearest() {
    let texture = Bitmap::from_function(4, 2, |x: usize, y: usize| Color::rgba(x as u8, y as u8, 0, 255));
    assert_eq!(sample_texture(&texture, 0, 0), Color::rgba(0, 0, 0, 255));
    assert_eq!(sample_texture(&texture, UV_ONE / 2, UV_ONE / 2), Color::rgba(2, 1, 0, 255));
    assert_eq!(sample_texture(&texture, UV_ONE / 4 - 1, 0), Color::rgba(0, 0, 0, 255));
    assert_eq!(sample_texture(&texture, UV_ONE / 4, 0), Color::rgba(1, 0, 0, 255));
    // coordinates outside [0, 1] are clamped; 1.0 itself is the last texel
    assert_eq!(sample_texture(&texture, -5 * UV_ONE, 3 * UV_ONE), Color::rgba(0, 1, 0, 255));
    assert_eq!(sample_texture(&texture, UV_ONE, UV_ONE), Color::rgba(3, 1, 0, 255));
}
