//! Named colors and pixel construction shortcuts.

use vstd::prelude::*;

use crate::canvas::rgb;

verus! {

/// A small table of named colors.
pub enum Color {
    Black,
    White,
    Red,
    Blue,
    Green,
    Orange,
}

/// Look a named color up as a pixel value.
pub fn get_pixel(c: Color) -> (p: bmp::Pixel)
    ensures
        rgb(p) == match c {
            Color::Black => (0u8, 0u8, 0u8),
            Color::White => (255u8, 255u8, 255u8),
            Color::Red => (255u8, 0u8, 0u8),
            Color::Green => (0u8, 255u8, 0u8),
            Color::Blue => (0u8, 255u8, 0u8),
            Color::Orange => (255u8, 106u8, 0u8),
        },
{
    match c {
        Color::Black => pix(0, 0, 0),
        Color::White => pix(255, 255, 255),
        Color::Red => pix(255, 0, 0),
        Color::Green => pix(0, 255, 0),
        Color::Blue => pix(0, 255, 0),
        Color::Orange => pix(255, 106, 0),
    }
}

/// Shortcut for creating pixel values.
pub fn pix(r: u8, g: u8, b: u8) -> (p: bmp::Pixel)
    ensures
        rgb(p) == (r, g, b),
{
    bmp::Pixel { r: r, g: g, b: b }
}

} // verus!
