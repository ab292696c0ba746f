use vstd::prelude::*;

use crate::image::square::Square;
use crate::image::Coords;
use crate::image::Image;
use crate::image::Pixel;
use crate::image::Size;

verus! {

/// A generated image: a centered white axis-aligned square on black.
#[derive(Debug, Copy, Clone, PartialEq, Eq, Structural)]
pub struct GenSquare {
    pub image_size: Size,
    pub square_size: u32,
    pub center: Coords,
}

/// The absolute difference of two integers.
pub open spec fn spec_dist(a: int, b: int) -> int {
    if a >= b {
        a - b
    } else {
        b - a
    }
}

impl GenSquare {
    /// A square image of side `image_size` showing a centered white square
    /// of side `square_size`.
    pub fn new(image_size: u32, square_size: u32) -> (r: Square<GenSquare>)
        requires
            image_size * image_size <= u32::MAX,
        ensures
            r.wf(),
            r.spec_width() == image_size,
            r.spec_height() == image_size,
            forall|x: int, y: int|
                r.spec_pixel(x, y) == (GenSquare {
                    image_size: Size { width: image_size, height: image_size },
                    square_size,
                    center: Coords { x: image_size / 2, y: image_size / 2 },
                }).spec_pixel(x, y),
    {
        let square = GenSquare {
            image_size: Size::squared(image_size),
            square_size,
            center: Coords { x: image_size / 2, y: image_size / 2 },
        };
        Square::new(square).unwrap()
    }
}

impl Image for GenSquare {
    open spec fn spec_width(&self) -> u32 {
        self.image_size.width
    }

    open spec fn spec_height(&self) -> u32 {
        self.image_size.height
    }

    open spec fn spec_pixel(&self, x: int, y: int) -> u8 {
        if spec_dist(self.center.x as int, x) <= self.square_size as int / 2 && spec_dist(
            self.center.y as int,
            y,
        ) <= self.square_size as int / 2 {
            255
        } else {
            0
        }
    }

    open spec fn wf(&self) -> bool {
        self.image_size.width * self.image_size.height <= u32::MAX
    }

    proof fn lemma_area_fits(&self) {
    }

    fn get_size(&self) -> (s: Size) {
        self.image_size
    }

    fn get_width(&self) -> (w: u32) {
        self.get_size().width
    }

    fn get_height(&self) -> (h: u32) {
        self.get_size().height
    }


    fn pixel(&self, x: u32, y: u32) -> (p: Pixel) {
        let dx = if self.center.x >= x {
            self.center.x - x
        } else {
            x - self.center.x
        };
        let dy = if self.center.y >= y {
            self.center.y - y
        } else {
            y - self.center.y
        };
        let half = self.square_size / 2;
        if dx <= half && dy <= half {
            255
        } else {
            0
        }
    }
}

} // verus!
