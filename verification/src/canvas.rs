//! The canvas contract: the pixel buffer the rasterizer writes into is a
//! `bmp::Image`, seen here only through its width, its height and a map
//! from in-range coordinates to color triples.

use vstd::prelude::*;

verus! {

#[verifier::external_type_specification]
pub struct ExPixel(bmp::Pixel);

#[verifier::external_type_specification]
#[verifier::external_body]
pub struct ExImage(bmp::Image);

/// The width the image was created with; fixed for its lifetime.
pub uninterp spec fn image_width(img: bmp::Image) -> int;

/// The height the image was created with; fixed for its lifetime.
pub uninterp spec fn image_height(img: bmp::Image) -> int;

/// The pixel grid of the image: the color triple stored at each coordinate.
pub uninterp spec fn image_pixels(img: bmp::Image) -> Map<(int, int), (u8, u8, u8)>;

/// The color triple a pixel value stands for.
pub open spec fn rgb(p: bmp::Pixel) -> (u8, u8, u8) {
    (p.r, p.g, p.b)
}

/// The coordinate (x, y) lies on the canvas.
pub open spec fn in_canvas(img: bmp::Image, x: int, y: int) -> bool {
    0 <= x < image_width(img) && 0 <= y < image_height(img)
}

/// The color triple stored at (x, y).
pub open spec fn pixel_at(img: bmp::Image, x: int, y: int) -> (u8, u8, u8) {
    image_pixels(img)[(x, y)]
}

/// Both images have the same dimensions.
pub open spec fn same_size(a: bmp::Image, b: bmp::Image) -> bool {
    image_width(a) == image_width(b) && image_height(a) == image_height(b)
}

/// The image's pixel count fits in u32.  bmp computes `width * height`
/// in u32 when it builds an image, so only for dimensions within this
/// bound does its pixel vector really hold one cell per coordinate; on
/// an image built with a wrapped product, a pixel write indexes out of
/// bounds.
pub open spec fn canvas_fits(img: bmp::Image) -> bool {
    image_width(img) * image_height(img) <= u32::MAX as int
}

/// Relies on `bmp::Image::get_width`: returns the stored width field.
#[verifier::external_body]
pub(crate) fn canvas_width(img: &bmp::Image) -> (w: u32)
    ensures
        w as int == image_width(*img),
{
    img.get_width()
}

/// Relies on `bmp::Image::get_height`: returns the stored height field.
#[verifier::external_body]
pub(crate) fn canvas_height(img: &bmp::Image) -> (h: u32)
    ensures
        h as int == image_height(*img),
{
    img.get_height()
}

/// Relies on `bmp::Image::set_pixel`: stores the value in the row-major
/// pixel grid, where distinct in-range coordinates index distinct cells;
/// it does not touch the width or height fields.  Out-of-range coordinates
/// would index a wrong cell or panic, so they are required away; so is an
/// image whose pixel count overflows u32, since both bmp constructors
/// compute the grid size in u32 and an in-range write on such an image
/// indexes past the wrapped-size pixel vector.
#[verifier::external_body]
pub(crate) fn canvas_set_pixel(img: &mut bmp::Image, x: u32, y: u32, color: bmp::Pixel)
    requires
        canvas_fits(*old(img)),
        (x as int) < image_width(*old(img)),
        (y as int) < image_height(*old(img)),
    ensures
        image_width(*final(img)) == image_width(*old(img)),
        image_height(*final(img)) == image_height(*old(img)),
        image_pixels(*final(img)) == image_pixels(*old(img)).insert(
            (x as int, y as int),
            rgb(color),
        ),
{
    img.set_pixel(x, y, color);
}

} // verus!
