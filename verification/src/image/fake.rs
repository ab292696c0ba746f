use vstd::prelude::*;

use crate::image::power_of_two::PowerOfTwo;
use crate::image::square::Square;
use crate::image::Image;
use crate::image::Pixel;
use crate::image::Size;

verus! {

/// An image whose pixel at `(x, y)` is `y * width + x`, truncated to a byte.
/// Handy as a deterministic pattern for tests and examples.
#[derive(Debug, Clone, Copy, PartialEq, Eq, Structural)]
pub struct FakeImage {
    pub size: Size,
}

impl Image for FakeImage {
    open spec fn spec_width(&self) -> u32 {
        self.size.width
    }

    open spec fn spec_height(&self) -> u32 {
        self.size.height
    }

    open spec fn spec_pixel(&self, x: int, y: int) -> u8 {
        ((y * self.size.width + x) % 256) as u8
    }

    open spec fn wf(&self) -> bool {
        self.size.width * self.size.height <= u32::MAX
    }

    proof fn lemma_area_fits(&self) {
    }

    fn get_size(&self) -> (s: Size) {
        self.size
    }

    fn get_width(&self) -> (w: u32) {
        self.get_size().width
    }

    fn get_height(&self) -> (h: u32) {
        self.get_size().height
    }


    fn pixel(&self, x: u32, y: u32) -> (p: u8) {
        proof {
            assert(y * self.size.width + x < self.size.width * self.size.height)
                by (nonlinear_arith)
                requires
                    x < self.size.width,
                    y < self.size.height,
            ;
        }
        ((y * self.size.width + x) % 256) as u8
    }
}

impl FakeImage {
    pub fn new(size: Size) -> (r: FakeImage)
        requires
            size.spec_area() <= u32::MAX,
        ensures
            r == (FakeImage { size }),
            r.wf(),
    {
        FakeImage { size }
    }

    /// Returns a fake image which is a square.
    pub fn squared(size: u32) -> (r: Square<FakeImage>)
        requires
            size * size <= u32::MAX,
        ensures
            r.wf(),
            r.spec_width() == size,
            r.spec_height() == size,
            forall|x: int, y: int|
                r.spec_pixel(x, y) == (FakeImage {
                    size: Size { width: size, height: size },
                }).spec_pixel(x, y),
    {
        let image = FakeImage::new(Size::squared(size));
        Square::new(image).unwrap()
    }

    /// Returns a fake image which is a square whose side is a power of two.
    pub fn squared_power_of_two(exponent: u16) -> (r: PowerOfTwo<Square<FakeImage>>)
        requires
            exponent < 16,
        ensures
            r.wf(),
            r.spec_width() == r.spec_height(),
    {
        proof {
            vstd::arithmetic::power2::lemma2_to64();
        }
        let mut side: u32 = 1;
        let mut e: u16 = 0;
        while e < exponent
            invariant
                exponent < 16,
                e <= exponent,
                side == vstd::arithmetic::power2::pow2(e as nat),
                crate::image::power_of_two::spec_is_power_of_two(side as nat),
                side < 0x10000,
            decreases exponent - e,
        {
            proof {
                vstd::arithmetic::power2::lemma_pow2_unfold((e + 1) as nat);
                vstd::arithmetic::power2::lemma_pow2_strictly_increases(
                    (e + 1) as nat,
                    16,
                );
                vstd::arithmetic::power2::lemma2_to64();
                assert(crate::image::power_of_two::spec_is_power_of_two(
                    (2 * side) as nat,
                ));
            }
            side = side * 2;
            e = e + 1;
        }
        proof {
            assert(side * side <= u32::MAX) by (nonlinear_arith)
                requires
                    0 <= side < 0x10000,
            ;
        }
        let image = FakeImage::squared(side);
        PowerOfTwo::new(image).unwrap()
    }
}

} // verus!
