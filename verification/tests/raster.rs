use bmp::Image;
use rusterizer::colors::{get_pixel, pix, Color};
use rusterizer::geometry::{Drawable, Fillable, Line, Rect, Tri, V2};

fn count_colored(img: &Image, color: bmp::Pixel) -> u32 {
    let mut n = 0;
    for y in 0..img.get_height() {
        for x in 0..img.get_width() {
            if img.get_pixel(x, y) == color {
                n += 1;
            }
        }
    }
    n
}

#[test]
fn test_draw_every_pixel() {
    // test drawing on every pixel to check proper edge case handling
}

#[test]
fn scenario_a_horizontal_line_excludes_endpoint() {
    let mut img = Image::new(20, 20);
    let white = get_pixel(Color::White);
    Line::new([0, 0], [10, 0]).draw(white, &mut img);
    for x in 0..10 {
        assert_eq!(img.get_pixel(x, 0), white);
    }
    assert_eq!(img.get_pixel(10, 0), pix(0, 0, 0));
    assert_eq!(count_colored(&img, white), 10);
}

#[test]
fn line_drawn_backwards_still_excludes_rightmost_column() {
    let mut img = Image::new(20, 20);
    let red = get_pixel(Color::Red);
    Line::new([10, 0], [0, 0]).draw(red, &mut img);
    for x in 0..10 {
        assert_eq!(img.get_pixel(x, 0), red);
    }
    assert_eq!(img.get_pixel(10, 0), pix(0, 0, 0));
    assert_eq!(count_colored(&img, red), 10);
}

#[test]
fn steep_line_walks_the_vertical_axis() {
    let mut img = Image::new(20, 20);
    let white = get_pixel(Color::White);
    Line::new([0, 0], [2, 10]).draw(white, &mut img);
    let expected = [
        (0, 0),
        (0, 1),
        (0, 2),
        (1, 3),
        (1, 4),
        (1, 5),
        (1, 6),
        (1, 7),
        (2, 8),
        (2, 9),
    ];
    for (x, y) in expected {
        assert_eq!(img.get_pixel(x, y), white);
    }
    assert_eq!(count_colored(&img, white), 10);
}

#[test]
fn line_is_clipped_to_the_canvas() {
    let mut img = Image::new(5, 5);
    let white = get_pixel(Color::White);
    Line::new([-3, 2], [9, 2]).draw(white, &mut img);
    for x in 0..5 {
        assert_eq!(img.get_pixel(x, 2), white);
    }
    assert_eq!(count_colored(&img, white), 5);
}

#[test]
fn rect_fill_unclipped_writes_width_times_height() {
    let mut img = Image::new(20, 20);
    let orange = get_pixel(Color::Orange);
    Rect::new([3, 4], 5, 6).fill(orange, &mut img);
    for y in 0..20u32 {
        for x in 0..20u32 {
            let inside = 3 <= x && x < 8 && 4 <= y && y < 10;
            assert_eq!(img.get_pixel(x, y) == orange, inside);
        }
    }
    assert_eq!(count_colored(&img, orange), 30);
}

#[test]
fn rect_fill_is_clipped_to_the_canvas() {
    let mut img = Image::new(20, 20);
    let red = get_pixel(Color::Red);
    Rect::new([-2, -3], 5, 5).fill(red, &mut img);
    // the covered region is x in [-2, 3), y in [-3, 2); only its
    // in-canvas part, 3 columns by 2 rows, is written
    assert_eq!(count_colored(&img, red), 6);
    assert_eq!(img.get_pixel(0, 0), red);
    assert_eq!(img.get_pixel(2, 1), red);
    assert_eq!(img.get_pixel(3, 0), pix(0, 0, 0));
    assert_eq!(img.get_pixel(0, 2), pix(0, 0, 0));
}

#[test]
fn rect_draw_strokes_the_four_edges() {
    let mut img = Image::new(20, 20);
    let white = get_pixel(Color::White);
    Rect::new([2, 3], 6, 5).draw(white, &mut img);
    // top edge runs from (2,3) towards (8,3), endpoint column excluded
    for x in 2..8 {
        assert_eq!(img.get_pixel(x, 3), white);
    }
    // left edge runs from (2,3) towards (2,8), endpoint row excluded
    for y in 3..8 {
        assert_eq!(img.get_pixel(2, y), white);
    }
    // bottom edge from (2,8) towards (8,8)
    for x in 2..8 {
        assert_eq!(img.get_pixel(x, 8), white);
    }
    // right edge from (8,3) towards (8,8)
    for y in 3..8 {
        assert_eq!(img.get_pixel(8, y), white);
    }
    // the interior stays unset
    assert_eq!(img.get_pixel(5, 5), pix(0, 0, 0));
}

#[test]
fn scenario_b_triangle_fill_follows_the_barycentric_test() {
    let mut img = Image::new(20, 20);
    let white = get_pixel(Color::White);
    Tri::new([0, 0], [10, 0], [0, 10]).fill(white, &mut img);
    // for this triangle the test reduces to x >= 0, y >= 0, x + y < 10;
    // (5,5), where u + v = 1, is excluded; the vertex (0,0), at
    // u = v = 0, is filled
    for y in 0..20u32 {
        for x in 0..20u32 {
            let inside = x + y < 10;
            assert_eq!(img.get_pixel(x, y) == white, inside);
        }
    }
    assert_eq!(img.get_pixel(5, 5), pix(0, 0, 0));
    assert_eq!(count_colored(&img, white), 55);
}

#[test]
fn degenerate_triangle_fill_writes_nothing() {
    let mut img = Image::new(20, 20);
    let white = get_pixel(Color::White);
    Tri::new([0, 0], [5, 5], [10, 10]).fill(white, &mut img);
    assert_eq!(count_colored(&img, white), 0);
}

#[test]
fn triangle_draw_strokes_the_three_edges() {
    let mut img = Image::new(20, 20);
    let white = get_pixel(Color::White);
    Tri::new([0, 0], [10, 0], [0, 10]).draw(white, &mut img);
    // part of the edge towards (10,0)
    assert_eq!(img.get_pixel(0, 0), white);
    assert_eq!(img.get_pixel(9, 0), white);
    // part of the hypotenuse from (10,0) towards (0,10)
    assert_eq!(img.get_pixel(5, 5), white);
    // part of the edge from (0,10) towards (0,0)
    assert_eq!(img.get_pixel(0, 9), white);
    assert_eq!(img.get_pixel(0, 1), white);
    // interior stays unset
    assert_eq!(img.get_pixel(3, 3), pix(0, 0, 0));
}

#[test]
fn trait_dispatch_draws_and_fills() {
    let mut img = Image::new(20, 20);
    let white = get_pixel(Color::White);
    let line = Line::new([0, 5], [5, 5]);
    Drawable::draw(&line, white, &mut img);
    assert_eq!(img.get_pixel(0, 5), white);
    let rect = Rect::new([10, 10], 2, 2);
    Fillable::fill(&rect, white, &mut img);
    assert_eq!(img.get_pixel(11, 11), white);
}

#[test]
fn draw_on_single_pixel_canvas() {
    let mut img = Image::new(1, 1);
    let white = get_pixel(Color::White);
    Line::new([-5, 0], [5, 0]).draw(white, &mut img);
    assert_eq!(img.get_pixel(0, 0), white);
    let mut img2 = Image::new(1, 1);
    Line::new([0, 0], [0, 0]).draw(white, &mut img2);
    // a zero-length walk plots nothing
    assert_eq!(img2.get_pixel(0, 0), pix(0, 0, 0));
}

#[test]
fn v2_helpers_feed_the_rasterizer() {
    let mut img = Image::new(20, 20);
    let white = get_pixel(Color::White);
    let v = V2::new([0, 0]);
    v.line_to([4, 0]).draw(white, &mut img);
    assert_eq!(img.get_pixel(3, 0), white);
    assert_eq!(img.get_pixel(4, 0), pix(0, 0, 0));
}
