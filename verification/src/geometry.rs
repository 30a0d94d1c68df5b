//! 2D geometric primitives over integer pixel coordinates, and the
//! rasterization routines that turn them into canvas writes.

use vstd::prelude::*;

use crate::canvas::{
    canvas_fits, canvas_height, canvas_set_pixel, canvas_width, image_pixels, in_canvas, pixel_at,
    rgb, same_size,
};
use crate::lines::{bres_state, line_writes_at, walk_upto};
use crate::tools::{iabs, imax, imin, lemma_len_disjoint_union, lemma_mul_bounds};

verus! {

/// Coordinates are kept within this bound so that the barycentric
/// containment test, a degree-four polynomial in the coordinates, can be
/// evaluated exactly in 128-bit integers.
pub const COORD_LIMIT: i32 = 536870912;

/// A 2d vector consisting of only two components.
#[derive(Clone, Copy, PartialEq, Eq, Structural, Debug)]
pub struct V2 {
    pub x: i32,
    pub y: i32,
}

/// A 2d line with two endpoints (a and b).
#[derive(Clone, Copy, PartialEq, Eq, Structural, Debug)]
pub struct Line {
    pub a: V2,
    pub b: V2,
}

/// A rect represented as an origin with width/height numbers.
#[derive(Clone, Copy, PartialEq, Eq, Structural, Debug)]
pub struct Rect {
    pub p: V2,
    pub w: i32,
    pub h: i32,
}

/// A triangle with 3 vertices.
#[derive(Clone, Copy, PartialEq, Eq, Structural, Debug)]
pub struct Tri {
    pub v1: V2,
    pub v2: V2,
    pub v3: V2,
}

/// Both components of the vector lie within the coordinate bound.
pub open spec fn v2_in_range(v: V2) -> bool {
    &&& -(COORD_LIMIT as int) <= v.x <= COORD_LIMIT as int
    &&& -(COORD_LIMIT as int) <= v.y <= COORD_LIMIT as int
}

/// The dot product of (ax, ay) and (bx, by).
pub open spec fn sdot(ax: int, ay: int, bx: int, by: int) -> int {
    ax * bx + ay * by
}

/// The dot product of two vectors, as contracts state it.
pub open spec fn v2_dot(a: V2, b: V2) -> int {
    sdot(a.x as int, a.y as int, b.x as int, b.y as int)
}

impl V2 {
    pub fn new(data: [i32; 2]) -> (r: V2)
        ensures
            r.x == data@[0],
            r.y == data@[1],
    {
        V2 { x: data[0], y: data[1] }
    }

    /// Create a line to a set of points (non-vector).
    pub fn line_to(&self, data: [i32; 2]) -> (r: Line)
        ensures
            r.a == *self,
            r.b.x == data@[0],
            r.b.y == data@[1],
    {
        Line { a: V2 { x: self.x, y: self.y }, b: V2::new(data) }
    }

    /// Create a line to another vector (vector used).
    pub fn segment(&self, data: &V2) -> (r: Line)
        ensures
            r.a == *self,
            r.b == *data,
    {
        Line { a: V2 { x: self.x, y: self.y }, b: V2 { x: data.x, y: data.y } }
    }

    /// Add two vectors together, component-wise.
    pub fn add(&self, other: &V2) -> (r: V2)
        requires
            i32::MIN <= self.x + other.x <= i32::MAX,
            i32::MIN <= self.y + other.y <= i32::MAX,
        ensures
            r.x == self.x + other.x,
            r.y == self.y + other.y,
    {
        V2 { x: self.x + other.x, y: self.y + other.y }
    }

    /// Subtract a vector from this one, component-wise.
    pub fn sub(&self, other: &V2) -> (r: V2)
        requires
            i32::MIN <= self.x - other.x <= i32::MAX,
            i32::MIN <= self.y - other.y <= i32::MAX,
        ensures
            r.x == self.x - other.x,
            r.y == self.y - other.y,
    {
        V2 { x: self.x - other.x, y: self.y - other.y }
    }

    /// Multiply the vector by a scalar (different from the dot product).
    pub fn scale(&self, scalar: i32) -> (r: V2)
        requires
            i32::MIN <= self.x * scalar <= i32::MAX,
            i32::MIN <= self.y * scalar <= i32::MAX,
        ensures
            r.x == self.x * scalar,
            r.y == self.y * scalar,
    {
        V2 { x: self.x * scalar, y: self.y * scalar }
    }

    /// Get the dot product (sum of the component-wise multiplications).
    pub fn dot(&self, other: &V2) -> (r: i64)
        requires
            i64::MIN <= v2_dot(*self, *other) <= i64::MAX,
        ensures
            r == v2_dot(*self, *other),
    {
        proof {
            lemma_mul_bounds(self.x as int, other.x as int, 0x8000_0000, 0x8000_0000);
            lemma_mul_bounds(self.y as int, other.y as int, 0x8000_0000, 0x8000_0000);
        }
        (self.x as i64) * (other.x as i64) + (self.y as i64) * (other.y as i64)
    }
}

impl Line {
    pub fn new(data0: [i32; 2], data1: [i32; 2]) -> (r: Line)
        ensures
            r.a.x == data0@[0],
            r.a.y == data0@[1],
            r.b.x == data1@[0],
            r.b.y == data1@[1],
    {
        Line { a: V2::new(data0), b: V2::new(data1) }
    }

    /// The minimal axis-aligned rect containing both endpoints: its origin
    /// is the component-wise minimum, its extent the absolute differences.
    pub fn rect(&self) -> (r: Rect)
        requires
            v2_in_range(self.a),
            v2_in_range(self.b),
        ensures
            r.p.x == imin(self.a.x as int, self.b.x as int),
            r.p.y == imin(self.a.y as int, self.b.y as int),
            r.w == iabs(self.a.x - self.b.x),
            r.h == iabs(self.a.y - self.b.y),
    {
        let tx = if self.a.x <= self.b.x {
            self.a.x
        } else {
            self.b.x
        };
        let ty = if self.a.y <= self.b.y {
            self.a.y
        } else {
            self.b.y
        };
        let w = if self.a.x <= self.b.x {
            self.b.x - self.a.x
        } else {
            self.a.x - self.b.x
        };
        let h = if self.a.y <= self.b.y {
            self.b.y - self.a.y
        } else {
            self.a.y - self.b.y
        };
        Rect { p: V2 { x: tx, y: ty }, w, h }
    }
}

/// The rasterized segment from a to b plots (px, py).
pub open spec fn line_writes(a: V2, b: V2, px: int, py: int) -> bool {
    line_writes_at(a.x as int, a.y as int, b.x as int, b.y as int, px, py)
}

impl Line {
    /// Draw a line from a to b compensating y as we travel (Bresenham).
    /// Exactly the in-canvas pixels of the rasterized segment receive the
    /// color; every other pixel of the canvas keeps its value.
    #[verifier::loop_isolation(false)]
    #[verifier::rlimit(60)]
    pub fn draw(&self, color: bmp::Pixel, img: &mut bmp::Image)
        requires
            canvas_fits(*old(img)),
        ensures
            same_size(*old(img), *final(img)),
            forall|px: int, py: int|
                line_writes(self.a, self.b, px, py) && in_canvas(*old(img), px, py)
                    ==> #[trigger] pixel_at(*final(img), px, py) == rgb(color),
            forall|px: int, py: int|
                !(line_writes(self.a, self.b, px, py) && in_canvas(*old(img), px, py))
                    ==> #[trigger] pixel_at(*final(img), px, py) == pixel_at(*old(img), px, py),
    {
        let mut steep = false;
        let mut xa = self.a.x as i64;
        let mut xb = self.b.x as i64;
        let mut ya = self.a.y as i64;
        let mut yb = self.b.y as i64;
        let adx = if xa >= xb {
            xa - xb
        } else {
            xb - xa
        };
        let ady = if ya >= yb {
            ya - yb
        } else {
            yb - ya
        };
        if adx < ady {
            let t = xa;
            xa = ya;
            ya = t;
            let t2 = xb;
            xb = yb;
            yb = t2;
            steep = true;
        }
        if xa > xb {
            let t = xa;
            xa = xb;
            xb = t;
            let t2 = ya;
            ya = yb;
            yb = t2;
        }
        let ghost gxa: int = xa as int;
        let ghost gya: int = ya as int;
        let ghost gxb: int = xb as int;
        let ghost gyb: int = yb as int;
        let dx = xb - xa;
        let dy = yb - ya;
        let derror2 = if dy >= 0 {
            2 * dy
        } else {
            -(2 * dy)
        };
        let mut error2: i64 = 0;
        let mut y = ya;
        let cx = canvas_width(img) as i64;
        let cy = canvas_height(img) as i64;
        let ghost img0 = *img;
        proof {
            assert(dx >= 0);
            assert(derror2 == 2 * iabs(gyb - gya));
            assert(iabs(gyb - gya) <= dx);
            assert(forall|px: int, py: int|
                line_writes(self.a, self.b, px, py) == walk_upto(
                    steep,
                    gxa,
                    gya,
                    gxb,
                    gyb,
                    gxb,
                    px,
                    py,
                ));
        }
        let mut x = xa;
        while x < xb
            invariant
                xa <= x <= xb,
                y == bres_state(gxa, gya, gxb, gyb, (x - xa) as nat).0,
                error2 == bres_state(gxa, gya, gxb, gyb, (x - xa) as nat).1,
                iabs(y as int - gya) <= x - xa,
                -dx <= error2 <= dx,
                same_size(img0, *img),
                forall|px: int, py: int|
                    walk_upto(steep, gxa, gya, gxb, gyb, x as int, px, py) && in_canvas(
                        img0,
                        px,
                        py,
                    ) ==> #[trigger] pixel_at(*img, px, py) == rgb(color),
                forall|px: int, py: int|
                    !(walk_upto(steep, gxa, gya, gxb, gyb, x as int, px, py) && in_canvas(
                        img0,
                        px,
                        py,
                    )) ==> #[trigger] pixel_at(*img, px, py) == pixel_at(img0, px, py),
            decreases xb - x,
        {
            let qx = if steep {
                y
            } else {
                x
            };
            let qy = if steep {
                x
            } else {
                y
            };
            let ghost prev = *img;
            if qx >= 0 && qx < cx && qy >= 0 && qy < cy {
                canvas_set_pixel(img, qx as u32, qy as u32, color);
                proof {
                    assert(image_pixels(*img) == image_pixels(prev).insert(
                        (qx as int, qy as int),
                        rgb(color),
                    ));
                    assert(pixel_at(*img, qx as int, qy as int) == rgb(color));
                }
            } else {
                proof {
                    assert(!in_canvas(img0, qx as int, qy as int));
                }
            }
            proof {
                assert forall|px: int, py: int|
                    walk_upto(steep, gxa, gya, gxb, gyb, x as int + 1, px, py) && in_canvas(
                        img0,
                        px,
                        py,
                    ) implies #[trigger] pixel_at(*img, px, py) == rgb(color) by {
                    if px == qx as int && py == qy as int {
                        assert(pixel_at(*img, px, py) == rgb(color));
                    } else {
                        let dcol = if steep {
                            py
                        } else {
                            px
                        };
                        assert(dcol < x as int + 1);
                        assert(dcol != x as int);
                        assert(walk_upto(steep, gxa, gya, gxb, gyb, x as int, px, py));
                        assert(pixel_at(*img, px, py) == pixel_at(prev, px, py));
                        assert(pixel_at(prev, px, py) == rgb(color));
                    }
                }
                assert forall|px: int, py: int|
                    !(walk_upto(steep, gxa, gya, gxb, gyb, x as int + 1, px, py) && in_canvas(
                        img0,
                        px,
                        py,
                    )) implies #[trigger] pixel_at(*img, px, py) == pixel_at(img0, px, py) by {
                    if px == qx as int && py == qy as int {
                        assert(!in_canvas(img0, px, py));
                        assert(pixel_at(*img, px, py) == pixel_at(prev, px, py));
                        assert(pixel_at(prev, px, py) == pixel_at(img0, px, py));
                    } else {
                        assert(pixel_at(*img, px, py) == pixel_at(prev, px, py));
                        assert(!(walk_upto(steep, gxa, gya, gxb, gyb, x as int, px, py)
                            && in_canvas(img0, px, py)));
                        assert(pixel_at(prev, px, py) == pixel_at(img0, px, py));
                    }
                }
            }
            error2 = error2 + derror2;
            if error2 > dx {
                if yb > ya {
                    y = y + 1;
                } else {
                    y = y - 1;
                }
                error2 = error2 - dx * 2;
            }
            x = x + 1;
            proof {
                assert(bres_state(gxa, gya, gxb, gyb, (x - xa) as nat) == (y as int, error2 as int));
            }
        }
    }
}

/// The filled rect covers (px, py): the half-open span of its extent in
/// both axes, empty when the width or height is not positive.
pub open spec fn rect_covers(r: Rect, px: int, py: int) -> bool {
    &&& r.p.x <= px < r.p.x + r.w
    &&& r.p.y <= py < r.p.y + r.h
}

impl Rect {
    pub fn new(p: [i32; 2], w: i32, h: i32) -> (r: Rect)
        ensures
            r.p.x == p@[0],
            r.p.y == p@[1],
            r.w == w,
            r.h == h,
    {
        Rect { p: V2::new(p), w, h }
    }

    /// Fill the rectangle with pixels one at a time.  Exactly the
    /// in-canvas pixels of the covered region receive the color; every
    /// other pixel keeps its value.
    #[verifier::loop_isolation(false)]
    pub fn fill(&self, color: bmp::Pixel, img: &mut bmp::Image)
        requires
            canvas_fits(*old(img)),
        ensures
            same_size(*old(img), *final(img)),
            forall|px: int, py: int|
                rect_covers(*self, px, py) && in_canvas(*old(img), px, py)
                    ==> #[trigger] pixel_at(*final(img), px, py) == rgb(color),
            forall|px: int, py: int|
                !(rect_covers(*self, px, py) && in_canvas(*old(img), px, py))
                    ==> #[trigger] pixel_at(*final(img), px, py) == pixel_at(*old(img), px, py),
    {
        let cx = canvas_width(img) as i64;
        let cy = canvas_height(img) as i64;
        let rx = self.p.x as i64;
        let rw = self.w as i64;
        let ry = self.p.y as i64;
        let rh = self.h as i64;
        let ghost img0 = *img;
        let mut yy = ry;
        while yy < ry + rh
            invariant
                ry <= yy,
                yy <= ry + rh || yy == ry,
                same_size(img0, *img),
                forall|px: int, py: int|
                    rect_covers(*self, px, py) && py < yy && in_canvas(img0, px, py)
                        ==> #[trigger] pixel_at(*img, px, py) == rgb(color),
                forall|px: int, py: int|
                    !(rect_covers(*self, px, py) && py < yy && in_canvas(img0, px, py))
                        ==> #[trigger] pixel_at(*img, px, py) == pixel_at(img0, px, py),
            decreases ry + rh - yy,
        {
            let mut xx = rx;
            while xx < rx + rw
                invariant
                    rx <= xx,
                    xx <= rx + rw || xx == rx,
                    same_size(img0, *img),
                    forall|px: int, py: int|
                        rect_covers(*self, px, py) && (py < yy || (py == yy && px < xx))
                            && in_canvas(img0, px, py) ==> #[trigger] pixel_at(*img, px, py)
                            == rgb(color),
                    forall|px: int, py: int|
                        !(rect_covers(*self, px, py) && (py < yy || (py == yy && px < xx))
                            && in_canvas(img0, px, py)) ==> #[trigger] pixel_at(*img, px, py)
                            == pixel_at(img0, px, py),
                decreases rx + rw - xx,
            {
                let ghost prev = *img;
                if xx >= 0 && xx < cx && yy >= 0 && yy < cy {
                    canvas_set_pixel(img, xx as u32, yy as u32, color);
                    proof {
                        assert(image_pixels(*img) == image_pixels(prev).insert(
                            (xx as int, yy as int),
                            rgb(color),
                        ));
                        assert(pixel_at(*img, xx as int, yy as int) == rgb(color));
                    }
                } else {
                    proof {
                        assert(!in_canvas(img0, xx as int, yy as int));
                    }
                }
                proof {
                    assert forall|px: int, py: int|
                        rect_covers(*self, px, py) && (py < yy || (py == yy && px < xx + 1))
                            && in_canvas(img0, px, py) implies #[trigger] pixel_at(*img, px, py)
                        == rgb(color) by {
                        if px == xx as int && py == yy as int {
                            assert(pixel_at(*img, px, py) == rgb(color));
                        } else {
                            assert(py < yy || (py == yy && px < xx));
                            assert(pixel_at(*img, px, py) == pixel_at(prev, px, py));
                            assert(pixel_at(prev, px, py) == rgb(color));
                        }
                    }
                    assert forall|px: int, py: int|
                        !(rect_covers(*self, px, py) && (py < yy || (py == yy && px < xx + 1))
                            && in_canvas(img0, px, py)) implies #[trigger] pixel_at(*img, px, py)
                        == pixel_at(img0, px, py) by {
                        assert(pixel_at(*img, px, py) == pixel_at(prev, px, py) || (px == xx as int
                            && py == yy as int && in_canvas(img0, px, py)));
                        if px == xx as int && py == yy as int {
                            assert(!(rect_covers(*self, px, py) && in_canvas(img0, px, py)));
                            assert(pixel_at(*img, px, py) == pixel_at(prev, px, py));
                        }
                        assert(!(rect_covers(*self, px, py) && (py < yy || (py == yy && px < xx))
                            && in_canvas(img0, px, py)));
                        assert(pixel_at(prev, px, py) == pixel_at(img0, px, py));
                    }
                }
                xx = xx + 1;
            }
            proof {
                assert forall|px: int, py: int|
                    rect_covers(*self, px, py) && py < yy + 1 && in_canvas(img0, px, py) implies (
                rect_covers(*self, px, py) && (py < yy || (py == yy && px < xx)) && in_canvas(
                    img0,
                    px,
                    py,
                )) by {}
            }
            yy = yy + 1;
        }
    }
}

/// The smallest x coordinate among the triangle's vertices.
pub open spec fn tri_min_x(t: Tri) -> int {
    imin(imin(t.v1.x as int, t.v2.x as int), t.v3.x as int)
}

/// The smallest y coordinate among the triangle's vertices.
pub open spec fn tri_min_y(t: Tri) -> int {
    imin(imin(t.v1.y as int, t.v2.y as int), t.v3.y as int)
}

/// The largest x coordinate among the triangle's vertices.
pub open spec fn tri_max_x(t: Tri) -> int {
    imax(imax(t.v1.x as int, t.v2.x as int), t.v3.x as int)
}

/// The largest y coordinate among the triangle's vertices.
pub open spec fn tri_max_y(t: Tri) -> int {
    imax(imax(t.v1.y as int, t.v2.y as int), t.v3.y as int)
}

/// The denominator of the barycentric coordinates of the triangle:
/// dot00*dot11 - dot01*dot01 over the edge vectors u = v3 - v1 and
/// w = v2 - v1.  It is zero exactly when the triangle is degenerate.
pub open spec fn tri_denom(t: Tri) -> int {
    let ux = t.v3.x - t.v1.x;
    let uy = t.v3.y - t.v1.y;
    let wx = t.v2.x - t.v1.x;
    let wy = t.v2.y - t.v1.y;
    sdot(ux, uy, ux, uy) * sdot(wx, wy, wx, wy) - sdot(ux, uy, wx, wy) * sdot(ux, uy, wx, wy)
}

/// The numerator of the barycentric coordinate u of (px, py):
/// dot11*dot02 - dot01*dot12, so that u = tri_nu / tri_denom.
pub open spec fn tri_nu(t: Tri, px: int, py: int) -> int {
    let ux = t.v3.x - t.v1.x;
    let uy = t.v3.y - t.v1.y;
    let wx = t.v2.x - t.v1.x;
    let wy = t.v2.y - t.v1.y;
    let qx = px - t.v1.x;
    let qy = py - t.v1.y;
    sdot(wx, wy, wx, wy) * sdot(ux, uy, qx, qy) - sdot(ux, uy, wx, wy) * sdot(wx, wy, qx, qy)
}

/// The numerator of the barycentric coordinate v of (px, py):
/// dot00*dot12 - dot01*dot02, so that v = tri_nv / tri_denom.
pub open spec fn tri_nv(t: Tri, px: int, py: int) -> int {
    let ux = t.v3.x - t.v1.x;
    let uy = t.v3.y - t.v1.y;
    let wx = t.v2.x - t.v1.x;
    let wy = t.v2.y - t.v1.y;
    let qx = px - t.v1.x;
    let qy = py - t.v1.y;
    sdot(ux, uy, ux, uy) * sdot(wx, wy, qx, qy) - sdot(ux, uy, wx, wy) * sdot(ux, uy, qx, qy)
}

/// The barycentric containment test: (px, py) lies inside the triangle
/// iff u >= 0, v >= 0 and u + v < 1, strict on the far edge.  With a
/// positive denominator those comparisons are the integer comparisons
/// below; a degenerate triangle (zero denominator) contains no point.
pub open spec fn tri_contains_at(t: Tri, px: int, py: int) -> bool {
    &&& tri_denom(t) > 0
    &&& tri_nu(t, px, py) >= 0
    &&& tri_nv(t, px, py) >= 0
    &&& tri_nu(t, px, py) + tri_nv(t, px, py) < tri_denom(t)
}

/// The stroked rect covers (px, py): the pixel lies on one of the four
/// rasterized edge segments (top, left, bottom, right).
pub open spec fn rect_stroke_writes(r: Rect, px: int, py: int) -> bool {
    let x1 = r.p.x as int;
    let y1 = r.p.y as int;
    let x2 = r.p.x + r.w;
    let y2 = r.p.y + r.h;
    ||| line_writes_at(x1, y1, x2, y1, px, py)
    ||| line_writes_at(x1, y1, x1, y2, px, py)
    ||| line_writes_at(x1, y2, x2, y2, px, py)
    ||| line_writes_at(x2, y1, x2, y2, px, py)
}

impl Rect {
    /// Draw lines around the rectangle given.  Exactly the in-canvas
    /// pixels of the four rasterized edges receive the color; every other
    /// pixel keeps its value.
    pub fn draw(&self, color: bmp::Pixel, img: &mut bmp::Image)
        requires
            canvas_fits(*old(img)),
            i32::MIN <= self.p.x + self.w <= i32::MAX,
            i32::MIN <= self.p.y + self.h <= i32::MAX,
        ensures
            same_size(*old(img), *final(img)),
            forall|px: int, py: int|
                rect_stroke_writes(*self, px, py) && in_canvas(*old(img), px, py)
                    ==> #[trigger] pixel_at(*final(img), px, py) == rgb(color),
            forall|px: int, py: int|
                !(rect_stroke_writes(*self, px, py) && in_canvas(*old(img), px, py))
                    ==> #[trigger] pixel_at(*final(img), px, py) == pixel_at(*old(img), px, py),
    {
        let rx2 = self.p.x + self.w;
        let ry2 = self.p.y + self.h;
        let ghost img0 = *img;
        let ghost x1: int = self.p.x as int;
        let ghost y1: int = self.p.y as int;
        let ghost x2: int = rx2 as int;
        let ghost y2: int = ry2 as int;
        let l1 = self.p.line_to([rx2, self.p.y]);
        l1.draw(color, img);
        let ghost s1 = *img;
        let l2 = self.p.line_to([self.p.x, ry2]);
        l2.draw(color, img);
        let ghost s2 = *img;
        proof {
            assert forall|px: int, py: int|
                (line_writes_at(x1, y1, x2, y1, px, py) || line_writes_at(
                    x1,
                    y1,
                    x1,
                    y2,
                    px,
                    py,
                )) && in_canvas(img0, px, py) implies #[trigger] pixel_at(s2, px, py) == rgb(
                color,
            ) by {
                if line_writes(l2.a, l2.b, px, py) {
                } else {
                    assert(pixel_at(s2, px, py) == pixel_at(s1, px, py));
                    assert(pixel_at(s1, px, py) == rgb(color));
                }
            }
            assert forall|px: int, py: int|
                !((line_writes_at(x1, y1, x2, y1, px, py) || line_writes_at(
                    x1,
                    y1,
                    x1,
                    y2,
                    px,
                    py,
                )) && in_canvas(img0, px, py)) implies #[trigger] pixel_at(s2, px, py) == pixel_at(
                img0,
                px,
                py,
            ) by {
                assert(pixel_at(s2, px, py) == pixel_at(s1, px, py));
                assert(pixel_at(s1, px, py) == pixel_at(img0, px, py));
            }
        }
        let l3 = V2::new([self.p.x, ry2]).line_to([rx2, ry2]);
        l3.draw(color, img);
        let ghost s3 = *img;
        proof {
            assert forall|px: int, py: int|
                (line_writes_at(x1, y1, x2, y1, px, py) || line_writes_at(x1, y1, x1, y2, px, py)
                    || line_writes_at(x1, y2, x2, y2, px, py)) && in_canvas(
                    img0,
                    px,
                    py,
                ) implies #[trigger] pixel_at(s3, px, py) == rgb(color) by {
                if line_writes(l3.a, l3.b, px, py) {
                } else {
                    assert(pixel_at(s3, px, py) == pixel_at(s2, px, py));
                    assert(pixel_at(s2, px, py) == rgb(color));
                }
            }
            assert forall|px: int, py: int|
                !((line_writes_at(x1, y1, x2, y1, px, py) || line_writes_at(x1, y1, x1, y2, px, py)
                    || line_writes_at(x1, y2, x2, y2, px, py)) && in_canvas(
                    img0,
                    px,
                    py,
                )) implies #[trigger] pixel_at(s3, px, py) == pixel_at(img0, px, py) by {
                assert(pixel_at(s3, px, py) == pixel_at(s2, px, py));
                assert(pixel_at(s2, px, py) == pixel_at(img0, px, py));
            }
        }
        let l4 = V2::new([rx2, self.p.y]).line_to([rx2, ry2]);
        l4.draw(color, img);
        proof {
            assert forall|px: int, py: int|
                rect_stroke_writes(*self, px, py) && in_canvas(img0, px, py) implies #[trigger]
            pixel_at(*img, px, py) == rgb(color) by {
                if line_writes(l4.a, l4.b, px, py) {
                } else {
                    assert(pixel_at(*img, px, py) == pixel_at(s3, px, py));
                    assert(pixel_at(s3, px, py) == rgb(color));
                }
            }
            assert forall|px: int, py: int|
                !(rect_stroke_writes(*self, px, py) && in_canvas(img0, px, py)) implies #[trigger]
            pixel_at(*img, px, py) == pixel_at(img0, px, py) by {
                assert(pixel_at(*img, px, py) == pixel_at(s3, px, py));
                assert(pixel_at(s3, px, py) == pixel_at(img0, px, py));
            }
        }
    }
}

/// The stroked triangle covers (px, py): the pixel lies on one of the
/// three rasterized edge segments.
pub open spec fn tri_stroke_writes(t: Tri, px: int, py: int) -> bool {
    ||| line_writes_at(t.v1.x as int, t.v1.y as int, t.v2.x as int, t.v2.y as int, px, py)
    ||| line_writes_at(t.v2.x as int, t.v2.y as int, t.v3.x as int, t.v3.y as int, px, py)
    ||| line_writes_at(t.v3.x as int, t.v3.y as int, t.v1.x as int, t.v1.y as int, px, py)
}

/// The filled triangle covers (px, py): the pixel lies in the half-open
/// bounding box of the vertices and passes the barycentric test.
pub open spec fn tri_covers(t: Tri, px: int, py: int) -> bool {
    &&& tri_min_x(t) <= px < tri_max_x(t)
    &&& tri_min_y(t) <= py < tri_max_y(t)
    &&& tri_contains_at(t, px, py)
}

impl Tri {
    pub fn new(v1: [i32; 2], v2: [i32; 2], v3: [i32; 2]) -> (r: Tri)
        ensures
            r.v1.x == v1@[0] && r.v1.y == v1@[1],
            r.v2.x == v2@[0] && r.v2.y == v2@[1],
            r.v3.x == v3@[0] && r.v3.y == v3@[1],
    {
        Tri { v1: V2::new(v1), v2: V2::new(v2), v3: V2::new(v3) }
    }

    /// Find the bounding rect of the triangle.
    pub fn rect(&self) -> (r: Rect)
        requires
            v2_in_range(self.v1),
            v2_in_range(self.v2),
            v2_in_range(self.v3),
        ensures
            r.p.x == tri_min_x(*self),
            r.p.y == tri_min_y(*self),
            r.w == tri_max_x(*self) - tri_min_x(*self),
            r.h == tri_max_y(*self) - tri_min_y(*self),
    {
        let tx = min_i32(min_i32(self.v1.x, self.v2.x), self.v3.x);
        let ty = min_i32(min_i32(self.v1.y, self.v2.y), self.v3.y);
        let bx = max_i32(max_i32(self.v1.x, self.v2.x), self.v3.x);
        let by = max_i32(max_i32(self.v1.y, self.v2.y), self.v3.y);
        Rect { p: V2 { x: tx, y: ty }, w: bx - tx, h: by - ty }
    }

    /// Check if the point is inside the triangle using the barycentric
    /// equations, evaluated exactly in 128-bit integer arithmetic.
    pub fn contains(&self, p: V2) -> (r: bool)
        requires
            v2_in_range(self.v1),
            v2_in_range(self.v2),
            v2_in_range(self.v3),
            v2_in_range(p),
        ensures
            r == tri_contains_at(*self, p.x as int, p.y as int),
    {
        let ux = (self.v3.x as i128) - (self.v1.x as i128);
        let uy = (self.v3.y as i128) - (self.v1.y as i128);
        let wx = (self.v2.x as i128) - (self.v1.x as i128);
        let wy = (self.v2.y as i128) - (self.v1.y as i128);
        let qx = (p.x as i128) - (self.v1.x as i128);
        let qy = (p.y as i128) - (self.v1.y as i128);
        proof {
            lemma_mul_bounds(ux as int, ux as int, 0x4000_0000, 0x4000_0000);
            lemma_mul_bounds(uy as int, uy as int, 0x4000_0000, 0x4000_0000);
            lemma_mul_bounds(ux as int, wx as int, 0x4000_0000, 0x4000_0000);
            lemma_mul_bounds(uy as int, wy as int, 0x4000_0000, 0x4000_0000);
            lemma_mul_bounds(wx as int, wx as int, 0x4000_0000, 0x4000_0000);
            lemma_mul_bounds(wy as int, wy as int, 0x4000_0000, 0x4000_0000);
            lemma_mul_bounds(ux as int, qx as int, 0x4000_0000, 0x4000_0000);
            lemma_mul_bounds(uy as int, qy as int, 0x4000_0000, 0x4000_0000);
            lemma_mul_bounds(wx as int, qx as int, 0x4000_0000, 0x4000_0000);
            lemma_mul_bounds(wy as int, qy as int, 0x4000_0000, 0x4000_0000);
        }
        let dot00 = ux * ux + uy * uy;
        let dot01 = ux * wx + uy * wy;
        let dot02 = ux * qx + uy * qy;
        let dot11 = wx * wx + wy * wy;
        let dot12 = wx * qx + wy * qy;
        proof {
            let b2: int = 0x2000_0000_0000_0000;
            lemma_mul_bounds(dot00 as int, dot11 as int, b2, b2);
            lemma_mul_bounds(dot01 as int, dot01 as int, b2, b2);
            lemma_mul_bounds(dot11 as int, dot02 as int, b2, b2);
            lemma_mul_bounds(dot01 as int, dot12 as int, b2, b2);
            lemma_mul_bounds(dot00 as int, dot12 as int, b2, b2);
            lemma_mul_bounds(dot01 as int, dot02 as int, b2, b2);
        }
        let denom = dot00 * dot11 - dot01 * dot01;
        let nu = dot11 * dot02 - dot01 * dot12;
        let nv = dot00 * dot12 - dot01 * dot02;
        denom > 0 && nu >= 0 && nv >= 0 && nu + nv < denom
    }

    /// Draw the lines from each vert to create a stroke triangle.
    /// Exactly the in-canvas pixels of the three rasterized edges receive
    /// the color; every other pixel keeps its value.
    pub fn draw(&self, color: bmp::Pixel, img: &mut bmp::Image)
        requires
            canvas_fits(*old(img)),
        ensures
            same_size(*old(img), *final(img)),
            forall|px: int, py: int|
                tri_stroke_writes(*self, px, py) && in_canvas(*old(img), px, py)
                    ==> #[trigger] pixel_at(*final(img), px, py) == rgb(color),
            forall|px: int, py: int|
                !(tri_stroke_writes(*self, px, py) && in_canvas(*old(img), px, py))
                    ==> #[trigger] pixel_at(*final(img), px, py) == pixel_at(*old(img), px, py),
    {
        let ghost img0 = *img;
        let l1 = self.v1.line_to([self.v2.x, self.v2.y]);
        l1.draw(color, img);
        let ghost s1 = *img;
        let l2 = self.v2.line_to([self.v3.x, self.v3.y]);
        l2.draw(color, img);
        let ghost s2 = *img;
        proof {
            assert forall|px: int, py: int|
                (line_writes(l1.a, l1.b, px, py) || line_writes(l2.a, l2.b, px, py)) && in_canvas(
                    img0,
                    px,
                    py,
                ) implies #[trigger] pixel_at(s2, px, py) == rgb(color) by {
                if line_writes(l2.a, l2.b, px, py) {
                } else {
                    assert(pixel_at(s2, px, py) == pixel_at(s1, px, py));
                    assert(pixel_at(s1, px, py) == rgb(color));
                }
            }
            assert forall|px: int, py: int|
                !((line_writes(l1.a, l1.b, px, py) || line_writes(l2.a, l2.b, px, py))
                    && in_canvas(img0, px, py)) implies #[trigger] pixel_at(s2, px, py)
                == pixel_at(img0, px, py) by {
                assert(pixel_at(s2, px, py) == pixel_at(s1, px, py));
                assert(pixel_at(s1, px, py) == pixel_at(img0, px, py));
            }
        }
        let l3 = self.v3.line_to([self.v1.x, self.v1.y]);
        l3.draw(color, img);
        proof {
            assert forall|px: int, py: int|
                tri_stroke_writes(*self, px, py) && in_canvas(img0, px, py) implies #[trigger]
            pixel_at(*img, px, py) == rgb(color) by {
                if line_writes(l3.a, l3.b, px, py) {
                } else {
                    assert(pixel_at(*img, px, py) == pixel_at(s2, px, py));
                    assert(pixel_at(s2, px, py) == rgb(color));
                }
            }
            assert forall|px: int, py: int|
                !(tri_stroke_writes(*self, px, py) && in_canvas(img0, px, py)) implies #[trigger]
            pixel_at(*img, px, py) == pixel_at(img0, px, py) by {
                assert(pixel_at(*img, px, py) == pixel_at(s2, px, py));
                assert(pixel_at(s2, px, py) == pixel_at(img0, px, py));
            }
        }
    }

    /// Fill a triangle by checking each point in a rect.  Exactly the
    /// in-canvas pixels of the covered bounding box that pass the
    /// barycentric test receive the color; every other pixel keeps its
    /// value.
    #[verifier::loop_isolation(false)]
    pub fn fill(&self, color: bmp::Pixel, img: &mut bmp::Image)
        requires
            canvas_fits(*old(img)),
            v2_in_range(self.v1),
            v2_in_range(self.v2),
            v2_in_range(self.v3),
        ensures
            same_size(*old(img), *final(img)),
            forall|px: int, py: int|
                tri_covers(*self, px, py) && in_canvas(*old(img), px, py)
                    ==> #[trigger] pixel_at(*final(img), px, py) == rgb(color),
            forall|px: int, py: int|
                !(tri_covers(*self, px, py) && in_canvas(*old(img), px, py))
                    ==> #[trigger] pixel_at(*final(img), px, py) == pixel_at(*old(img), px, py),
    {
        let cx = canvas_width(img) as i64;
        let cy = canvas_height(img) as i64;
        let rect = self.rect();
        let rx = rect.p.x as i64;
        let rw = rect.w as i64;
        let ry = rect.p.y as i64;
        let rh = rect.h as i64;
        let ghost img0 = *img;
        let mut yy = ry;
        while yy < ry + rh
            invariant
                ry <= yy,
                yy <= ry + rh || yy == ry,
                same_size(img0, *img),
                forall|px: int, py: int|
                    tri_covers(*self, px, py) && py < yy && in_canvas(img0, px, py)
                        ==> #[trigger] pixel_at(*img, px, py) == rgb(color),
                forall|px: int, py: int|
                    !(tri_covers(*self, px, py) && py < yy && in_canvas(img0, px, py))
                        ==> #[trigger] pixel_at(*img, px, py) == pixel_at(img0, px, py),
            decreases ry + rh - yy,
        {
            let mut xx = rx;
            while xx < rx + rw
                invariant
                    rx <= xx,
                    xx <= rx + rw || xx == rx,
                    same_size(img0, *img),
                    forall|px: int, py: int|
                        tri_covers(*self, px, py) && (py < yy || (py == yy && px < xx))
                            && in_canvas(img0, px, py) ==> #[trigger] pixel_at(*img, px, py)
                            == rgb(color),
                    forall|px: int, py: int|
                        !(tri_covers(*self, px, py) && (py < yy || (py == yy && px < xx))
                            && in_canvas(img0, px, py)) ==> #[trigger] pixel_at(*img, px, py)
                            == pixel_at(img0, px, py),
                decreases rx + rw - xx,
            {
                let ghost prev = *img;
                let on_canvas = xx >= 0 && xx < cx && yy >= 0 && yy < cy;
                let inside = self.contains(V2 { x: xx as i32, y: yy as i32 });
                if on_canvas && inside {
                    canvas_set_pixel(img, xx as u32, yy as u32, color);
                    proof {
                        assert(image_pixels(*img) == image_pixels(prev).insert(
                            (xx as int, yy as int),
                            rgb(color),
                        ));
                        assert(pixel_at(*img, xx as int, yy as int) == rgb(color));
                    }
                } else {
                    proof {
                        assert(!(tri_covers(*self, xx as int, yy as int) && in_canvas(
                            img0,
                            xx as int,
                            yy as int,
                        )));
                    }
                }
                proof {
                    assert forall|px: int, py: int|
                        tri_covers(*self, px, py) && (py < yy || (py == yy && px < xx + 1))
                            && in_canvas(img0, px, py) implies #[trigger] pixel_at(*img, px, py)
                        == rgb(color) by {
                        if px == xx as int && py == yy as int {
                            assert(pixel_at(*img, px, py) == rgb(color));
                        } else {
                            assert(py < yy || (py == yy && px < xx));
                            assert(pixel_at(*img, px, py) == pixel_at(prev, px, py));
                            assert(pixel_at(prev, px, py) == rgb(color));
                        }
                    }
                    assert forall|px: int, py: int|
                        !(tri_covers(*self, px, py) && (py < yy || (py == yy && px < xx + 1))
                            && in_canvas(img0, px, py)) implies #[trigger] pixel_at(*img, px, py)
                        == pixel_at(img0, px, py) by {
                        if px == xx as int && py == yy as int {
                            assert(pixel_at(*img, px, py) == pixel_at(prev, px, py));
                        } else {
                            assert(pixel_at(*img, px, py) == pixel_at(prev, px, py));
                        }
                        assert(!(tri_covers(*self, px, py) && (py < yy || (py == yy && px < xx))
                            && in_canvas(img0, px, py)));
                        assert(pixel_at(prev, px, py) == pixel_at(img0, px, py));
                    }
                }
                xx = xx + 1;
            }
            proof {
                assert forall|px: int, py: int|
                    tri_covers(*self, px, py) && py < yy + 1 && in_canvas(img0, px, py) implies (
                tri_covers(*self, px, py) && (py < yy || (py == yy && px < xx)) && in_canvas(
                    img0,
                    px,
                    py,
                )) by {}
            }
            yy = yy + 1;
        }
    }
}

/// Drawable is used for stroking shapes, not filling.  A draw colors
/// exactly the in-canvas pixels its stroke covers and leaves every other
/// pixel alone.
pub trait Drawable {
    /// The pixels the shape's stroke covers, before canvas clipping.
    spec fn stroke_writes(&self, px: int, py: int) -> bool;

    /// The machine-limit side conditions the stroke needs.
    spec fn draw_req(&self) -> bool;

    fn draw(&self, color: bmp::Pixel, img: &mut bmp::Image)
        requires
            self.draw_req(),
            canvas_fits(*old(img)),
        ensures
            same_size(*old(img), *final(img)),
            forall|px: int, py: int|
                self.stroke_writes(px, py) && in_canvas(*old(img), px, py)
                    ==> #[trigger] pixel_at(*final(img), px, py) == rgb(color),
            forall|px: int, py: int|
                !(self.stroke_writes(px, py) && in_canvas(*old(img), px, py))
                    ==> #[trigger] pixel_at(*final(img), px, py) == pixel_at(*old(img), px, py),
    ;
}

/// Fillable is used to fill entire shapes.  A fill colors exactly the
/// in-canvas pixels the shape covers and leaves every other pixel alone.
pub trait Fillable {
    /// The pixels the shape's fill covers, before canvas clipping.
    spec fn fill_writes(&self, px: int, py: int) -> bool;

    /// The machine-limit side conditions the fill needs.
    spec fn fill_req(&self) -> bool;

    fn fill(&self, color: bmp::Pixel, img: &mut bmp::Image)
        requires
            self.fill_req(),
            canvas_fits(*old(img)),
        ensures
            same_size(*old(img), *final(img)),
            forall|px: int, py: int|
                self.fill_writes(px, py) && in_canvas(*old(img), px, py)
                    ==> #[trigger] pixel_at(*final(img), px, py) == rgb(color),
            forall|px: int, py: int|
                !(self.fill_writes(px, py) && in_canvas(*old(img), px, py))
                    ==> #[trigger] pixel_at(*final(img), px, py) == pixel_at(*old(img), px, py),
    ;
}

impl Drawable for Line {
    open spec fn stroke_writes(&self, px: int, py: int) -> bool {
        line_writes(self.a, self.b, px, py)
    }

    open spec fn draw_req(&self) -> bool {
        true
    }

    fn draw(&self, color: bmp::Pixel, img: &mut bmp::Image) {
        Line::draw(self, color, img)
    }
}

impl Drawable for Rect {
    open spec fn stroke_writes(&self, px: int, py: int) -> bool {
        rect_stroke_writes(*self, px, py)
    }

    open spec fn draw_req(&self) -> bool {
        &&& i32::MIN <= self.p.x + self.w <= i32::MAX
        &&& i32::MIN <= self.p.y + self.h <= i32::MAX
    }

    fn draw(&self, color: bmp::Pixel, img: &mut bmp::Image) {
        Rect::draw(self, color, img)
    }
}

impl Fillable for Rect {
    open spec fn fill_writes(&self, px: int, py: int) -> bool {
        rect_covers(*self, px, py)
    }

    open spec fn fill_req(&self) -> bool {
        true
    }

    fn fill(&self, color: bmp::Pixel, img: &mut bmp::Image) {
        Rect::fill(self, color, img)
    }
}

impl Drawable for Tri {
    open spec fn stroke_writes(&self, px: int, py: int) -> bool {
        tri_stroke_writes(*self, px, py)
    }

    open spec fn draw_req(&self) -> bool {
        true
    }

    fn draw(&self, color: bmp::Pixel, img: &mut bmp::Image) {
        Tri::draw(self, color, img)
    }
}

impl Fillable for Tri {
    open spec fn fill_writes(&self, px: int, py: int) -> bool {
        tri_covers(*self, px, py)
    }

    open spec fn fill_req(&self) -> bool {
        &&& v2_in_range(self.v1)
        &&& v2_in_range(self.v2)
        &&& v2_in_range(self.v3)
    }

    fn fill(&self, color: bmp::Pixel, img: &mut bmp::Image) {
        Tri::fill(self, color, img)
    }
}

/// Adding a vector and subtracting it again returns the original vector,
/// exactly: for c = a.add(b) and d = c.sub(b), d equals a.
pub proof fn lemma_add_sub_roundtrip(a: V2, b: V2, c: V2, d: V2)
    requires
        c.x == a.x + b.x,
        c.y == a.y + b.y,
        d.x == c.x - b.x,
        d.y == c.y - b.y,
    ensures
        d == a,
{
}

/// The dot product is commutative.
pub proof fn lemma_dot_comm(a: V2, b: V2)
    ensures
        v2_dot(a, b) == v2_dot(b, a),
{
}

/// The cross product of the triangle's two edge vectors; zero exactly
/// when the three vertices are collinear.
pub open spec fn tri_cross(t: Tri) -> int {
    let ux = t.v3.x - t.v1.x;
    let uy = t.v3.y - t.v1.y;
    let wx = t.v2.x - t.v1.x;
    let wy = t.v2.y - t.v1.y;
    ux * wy - uy * wx
}

/// A triangle is degenerate when its vertices are collinear, that is,
/// when its edge cross product (twice its signed area) is zero.
pub open spec fn tri_degenerate(t: Tri) -> bool {
    tri_cross(t) == 0
}

/// Lagrange's identity for the barycentric denominator: it is the square
/// of the edge cross product, hence never negative, and zero exactly for
/// degenerate triangles.
pub proof fn lemma_denom_is_cross_squared(t: Tri)
    ensures
        tri_denom(t) == tri_cross(t) * tri_cross(t),
        tri_denom(t) >= 0,
        tri_denom(t) == 0 <==> tri_degenerate(t),
{
    let ux = t.v3.x - t.v1.x;
    let uy = t.v3.y - t.v1.y;
    let wx = t.v2.x - t.v1.x;
    let wy = t.v2.y - t.v1.y;
    let p = ux * wx;
    let q = uy * wy;
    let r = ux * wy;
    let s = uy * wx;
    assert((ux * ux + uy * uy) * (wx * wx + wy * wy) == (ux * ux) * (wx * wx) + (ux * ux) * (wy
        * wy) + (uy * uy) * (wx * wx) + (uy * uy) * (wy * wy)) by (nonlinear_arith);
    assert((ux * ux) * (wx * wx) == p * p) by (nonlinear_arith)
        requires
            p == ux * wx,
    ;
    assert((ux * ux) * (wy * wy) == r * r) by (nonlinear_arith)
        requires
            r == ux * wy,
    ;
    assert((uy * uy) * (wx * wx) == s * s) by (nonlinear_arith)
        requires
            s == uy * wx,
    ;
    assert((uy * uy) * (wy * wy) == q * q) by (nonlinear_arith)
        requires
            q == uy * wy,
    ;
    assert((p + q) * (p + q) == p * p + 2 * (p * q) + q * q) by (nonlinear_arith);
    assert(p * q == r * s) by (nonlinear_arith)
        requires
            p == ux * wx,
            q == uy * wy,
            r == ux * wy,
            s == uy * wx,
    ;
    assert((r - s) * (r - s) == r * r - 2 * (r * s) + s * s) by (nonlinear_arith);
    assert(tri_denom(t) == (r - s) * (r - s));
    assert((r - s) * (r - s) >= 0) by (nonlinear_arith);
    assert((r - s) * (r - s) == 0 <==> r - s == 0) by (nonlinear_arith);
}

/// A degenerate triangle - all three vertices collinear - contains no
/// point at all.
pub proof fn lemma_degenerate_contains_nothing(t: Tri, px: int, py: int)
    requires
        tri_degenerate(t),
    ensures
        !tri_contains_at(t, px, py),
{
    lemma_denom_is_cross_squared(t);
}

/// The containment test excludes the vertices v2 and v3 of every
/// triangle: their barycentric coordinates lie on the excluded far edge
/// u + v = 1.  (The vertex v1 itself, at u = v = 0, passes the test in a
/// non-degenerate triangle: the boundary policy is asymmetric.)
pub proof fn lemma_contains_excludes_far_vertices(t: Tri)
    ensures
        !tri_contains_at(t, t.v2.x as int, t.v2.y as int),
        !tri_contains_at(t, t.v3.x as int, t.v3.y as int),
{
}

/// The centroid of a triangle with positive area passes the containment
/// test whenever it is itself an integer point: its barycentric
/// coordinates are u = v = 1/3.
pub proof fn lemma_contains_centroid(t: Tri, cx: int, cy: int)
    requires
        tri_denom(t) > 0,
        3 * cx == t.v1.x + t.v2.x + t.v3.x,
        3 * cy == t.v1.y + t.v2.y + t.v3.y,
    ensures
        tri_contains_at(t, cx, cy),
{
    let ux = t.v3.x - t.v1.x;
    let uy = t.v3.y - t.v1.y;
    let wx = t.v2.x - t.v1.x;
    let wy = t.v2.y - t.v1.y;
    let qx = cx - t.v1.x;
    let qy = cy - t.v1.y;
    let d00 = ux * ux + uy * uy;
    let d01 = ux * wx + uy * wy;
    let d11 = wx * wx + wy * wy;
    let d02 = ux * qx + uy * qy;
    let d12 = wx * qx + wy * qy;
    assert(3 * qx == ux + wx);
    assert(3 * qy == uy + wy);
    assert(3 * d02 == d00 + d01) by {
        assert(3 * (ux * qx) == ux * (3 * qx)) by (nonlinear_arith);
        assert(3 * (uy * qy) == uy * (3 * qy)) by (nonlinear_arith);
        assert(ux * (ux + wx) == ux * ux + ux * wx) by (nonlinear_arith);
        assert(uy * (uy + wy) == uy * uy + uy * wy) by (nonlinear_arith);
    }
    assert(3 * d12 == d01 + d11) by {
        assert(3 * (wx * qx) == wx * (3 * qx)) by (nonlinear_arith);
        assert(3 * (wy * qy) == wy * (3 * qy)) by (nonlinear_arith);
        assert(wx * (ux + wx) == wx * ux + wx * wx) by (nonlinear_arith);
        assert(wy * (uy + wy) == wy * uy + wy * wy) by (nonlinear_arith);
        assert(wx * ux == ux * wx) by (nonlinear_arith);
        assert(wy * uy == uy * wy) by (nonlinear_arith);
    }
    assert(3 * (d11 * d02 - d01 * d12) == d00 * d11 - d01 * d01) by {
        assert(3 * (d11 * d02) == d11 * (3 * d02)) by (nonlinear_arith);
        assert(3 * (d01 * d12) == d01 * (3 * d12)) by (nonlinear_arith);
        assert(d11 * (d00 + d01) == d11 * d00 + d11 * d01) by (nonlinear_arith);
        assert(d01 * (d01 + d11) == d01 * d01 + d01 * d11) by (nonlinear_arith);
        assert(d11 * d00 == d00 * d11) by (nonlinear_arith);
        assert(d11 * d01 == d01 * d11) by (nonlinear_arith);
    }
    assert(3 * (d00 * d12 - d01 * d02) == d00 * d11 - d01 * d01) by {
        assert(3 * (d00 * d12) == d00 * (3 * d12)) by (nonlinear_arith);
        assert(3 * (d01 * d02) == d01 * (3 * d02)) by (nonlinear_arith);
        assert(d00 * (d01 + d11) == d00 * d01 + d00 * d11) by (nonlinear_arith);
        assert(d01 * (d00 + d01) == d01 * d00 + d01 * d01) by (nonlinear_arith);
        assert(d00 * d01 == d01 * d00) by (nonlinear_arith);
    }
    assert(tri_nu(t, cx, cy) == d11 * d02 - d01 * d12);
    assert(tri_nv(t, cx, cy) == d00 * d12 - d01 * d02);
    assert(tri_denom(t) == d00 * d11 - d01 * d01);
}

/// The set of pixels a fill of r writes on a w-by-h canvas: the covered
/// region clipped to the canvas.
pub open spec fn rect_fill_set(r: Rect, w: int, h: int) -> Set<(int, int)> {
    Set::new(|p: (int, int)| rect_covers(r, p.0, p.1) && 0 <= p.0 < w && 0 <= p.1 < h)
}

/// The axis-aligned grid of pixels with x in [x1, x2) and y in [y1, y2).
pub open spec fn pixel_grid(x1: int, y1: int, x2: int, y2: int) -> Set<(int, int)> {
    Set::new(|p: (int, int)| x1 <= p.0 < x2 && y1 <= p.1 < y2)
}

/// A single pixel row of length x2 - x1 is finite and has that many
/// pixels.
proof fn lemma_pixel_row_len(x1: int, x2: int, y: int)
    requires
        x1 <= x2,
    ensures
        pixel_grid(x1, y, x2, y + 1).finite(),
        pixel_grid(x1, y, x2, y + 1).len() == x2 - x1,
    decreases x2 - x1,
{
    broadcast use vstd::set::group_set_axioms;

    if x1 == x2 {
        assert(pixel_grid(x1, y, x2, y + 1) =~= Set::empty());
    } else {
        lemma_pixel_row_len(x1, x2 - 1, y);
        assert(pixel_grid(x1, y, x2, y + 1) =~= pixel_grid(x1, y, x2 - 1, y + 1).insert(
            (x2 - 1, y),
        ));
        assert(!pixel_grid(x1, y, x2 - 1, y + 1).contains((x2 - 1, y)));
    }
}

/// A grid of pixels is finite and has (x2 - x1) * (y2 - y1) pixels.
pub proof fn lemma_pixel_grid_len(x1: int, y1: int, x2: int, y2: int)
    requires
        x1 <= x2,
        y1 <= y2,
    ensures
        pixel_grid(x1, y1, x2, y2).finite(),
        pixel_grid(x1, y1, x2, y2).len() == (x2 - x1) * (y2 - y1),
    decreases y2 - y1,
{
    broadcast use vstd::set::group_set_axioms;

    if y1 == y2 {
        assert(pixel_grid(x1, y1, x2, y2) =~= Set::empty());
        assert((x2 - x1) * (y2 - y1) == 0) by (nonlinear_arith)
            requires
                y1 == y2,
        ;
    } else {
        lemma_pixel_grid_len(x1, y1, x2, y2 - 1);
        lemma_pixel_row_len(x1, x2, y2 - 1);
        lemma_len_disjoint_union(pixel_grid(x1, y1, x2, y2 - 1), pixel_grid(x1, y2 - 1, x2, y2));
        assert(pixel_grid(x1, y1, x2, y2) =~= pixel_grid(x1, y1, x2, y2 - 1).union(
            pixel_grid(x1, y2 - 1, x2, y2),
        ));
        assert((x2 - x1) * (y2 - y1 - 1) + (x2 - x1) == (x2 - x1) * (y2 - y1)) by (nonlinear_arith);
    }
}

/// A fill of an unclipped rect - one whose covered region lies entirely
/// on the canvas - writes exactly width * height pixels.
pub proof fn lemma_unclipped_fill_count(r: Rect, w: int, h: int)
    requires
        r.w >= 0,
        r.h >= 0,
        0 <= r.p.x,
        r.p.x + r.w <= w,
        0 <= r.p.y,
        r.p.y + r.h <= h,
    ensures
        rect_fill_set(r, w, h).finite(),
        rect_fill_set(r, w, h).len() == r.w * r.h,
{
    assert(rect_fill_set(r, w, h) =~= pixel_grid(
        r.p.x as int,
        r.p.y as int,
        r.p.x + r.w,
        r.p.y + r.h,
    ));
    lemma_pixel_grid_len(r.p.x as int, r.p.y as int, r.p.x + r.w, r.p.y + r.h);
}

/// The smaller of two machine integers.
fn min_i32(a: i32, b: i32) -> (r: i32)
    ensures
        r == imin(a as int, b as int),
{
    if a <= b {
        a
    } else {
        b
    }
}

/// The larger of two machine integers.
fn max_i32(a: i32, b: i32) -> (r: i32)
    ensures
        r == imax(a as int, b as int),
{
    if a >= b {
        a
    } else {
        b
    }
}

} // verus!
