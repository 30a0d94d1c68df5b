use rusterizer::colors::{get_pixel, pix, Color};
use rusterizer::tools::abs;

#[test]
fn it_works() {
}

#[test]
fn test_abs() {
    assert_eq!(abs(-5), 5);
    assert_eq!(abs(7), 7);
    assert_eq!(abs(0), 0);
}

#[test]
fn test_pix_channels() {
    let p = pix(1, 2, 3);
    assert_eq!(p.r, 1);
    assert_eq!(p.g, 2);
    assert_eq!(p.b, 3);
}

#[test]
fn test_color_table() {
    assert_eq!(get_pixel(Color::Black), pix(0, 0, 0));
    assert_eq!(get_pixel(Color::White), pix(255, 255, 255));
    assert_eq!(get_pixel(Color::Red), pix(255, 0, 0));
    assert_eq!(get_pixel(Color::Green), pix(0, 255, 0));
    assert_eq!(get_pixel(Color::Blue), pix(0, 255, 0));
    assert_eq!(get_pixel(Color::Orange), pix(255, 106, 0));
}
