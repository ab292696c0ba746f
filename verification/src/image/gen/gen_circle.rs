use vstd::prelude::*;

use crate::image::square::Square;
use crate::image::Coords;
use crate::image::Image;
use crate::image::Pixel;
use crate::image::Size;

verus! {

/// A generated image: a centered white disc on black.  The radius is an
/// integer count of pixels; a pixel is white exactly when its squared
/// distance from the center is at most the squared radius.
#[derive(Debug, Copy, Clone, PartialEq, Eq, Structural)]
pub struct GenCircle {
    pub image_size: Size,
    pub radius: u32,
    pub center: Coords,
}

impl GenCircle {
    /// A square image of side `image_size` showing a centered disc of the
    /// given radius.
    pub fn new(image_size: u32, radius: u32) -> (r: Square<GenCircle>)
        requires
            image_size * image_size <= u32::MAX,
        ensures
            r.wf(),
            r.spec_width() == image_size,
            r.spec_height() == image_size,
            forall|x: int, y: int|
                r.spec_pixel(x, y) == (GenCircle {
                    image_size: Size { width: image_size, height: image_size },
                    radius,
                    center: Coords { x: image_size / 2, y: image_size / 2 },
                }).spec_pixel(x, y),
    {
        let circle = GenCircle {
            image_size: Size::squared(image_size),
            radius,
            center: Coords { x: image_size / 2, y: image_size / 2 },
        };
        Square::new(circle).unwrap()
    }
}

impl Image for GenCircle {
    open spec fn spec_width(&self) -> u32 {
        self.image_size.width
    }

    open spec fn spec_height(&self) -> u32 {
        self.image_size.height
    }

    open spec fn spec_pixel(&self, x: int, y: int) -> u8 {
        let dx = self.center.x - x;
        let dy = self.center.y - y;
        if dx * dx + dy * dy <= self.radius * self.radius {
            255
        } else {
            0
        }
    }

    open spec fn wf(&self) -> bool {
        self.image_size.width * self.image_size.height <= u32::MAX
    }

    proof fn lemma_area_fits(&self) {
    }

    fn get_size(&self) -> (s: Size) {
        self.image_size
    }

    fn get_width(&self) -> (w: u32) {
        self.get_size().width
    }

    fn get_height(&self) -> (h: u32) {
        self.get_size().height
    }


    fn pixel(&self, x: u32, y: u32) -> (p: Pixel) {
        let dx: u64 = if self.center.x >= x {
            (self.center.x - x) as u64
        } else {
            (x - self.center.x) as u64
        };
        let dy: u64 = if self.center.y >= y {
            (self.center.y - y) as u64
        } else {
            (y - self.center.y) as u64
        };
        proof {
            lemma_abs_diff_square(self.center.x as int, x as int, dx as int);
            lemma_abs_diff_square(self.center.y as int, y as int, dy as int);
            assert(self.radius * self.radius <= u64::MAX) by (nonlinear_arith)
                requires
                    0 <= self.radius <= u32::MAX,
            ;
        }
        let dist_sq: u128 = (dx * dx) as u128 + (dy * dy) as u128;
        let radius_sq: u128 = (self.radius as u64 * self.radius as u64) as u128;
        if dist_sq <= radius_sq {
            255
        } else {
            0
        }
    }
}

/// The square of a difference equals the square of the absolute difference,
/// and the latter stays within 64 bits for 32-bit inputs.
proof fn lemma_abs_diff_square(a: int, b: int, d: int)
    requires
        0 <= a <= u32::MAX,
        0 <= b <= u32::MAX,
        d == if a >= b {
            a - b
        } else {
            b - a
        },
    ensures
        d * d == (a - b) * (a - b),
        0 <= d * d <= u64::MAX,
{
    assert(d * d == (a - b) * (a - b) && 0 <= d * d <= u64::MAX) by (nonlinear_arith)
        requires
            0 <= a <= u32::MAX,
            0 <= b <= u32::MAX,
            d == if a >= b {
                a - b
            } else {
                b - a
            },
    ;
}

} // verus!
