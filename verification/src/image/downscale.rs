use vstd::prelude::*;

use std::sync::Arc;

use crate::image::block::SquaredBlock;
use crate::image::square::Square;
use crate::image::Image;
use crate::image::Pixel;
use crate::image::Size;

verus! {

/// The 2-by-2 box filter: the mean of the four source pixels whose top-left
/// corner is `(2x, 2y)`, rounded down.
pub open spec fn spec_downscaled_pixel<I: Image>(image: I, x: int, y: int) -> u8 {
    ((image.spec_pixel(2 * x, 2 * y) + image.spec_pixel(2 * x + 1, 2 * y)
        + image.spec_pixel(2 * x, 2 * y + 1) + image.spec_pixel(2 * x + 1, 2 * y + 1))
        / 4) as u8
}

/// A read-only view that halves each dimension of its source by averaging
/// disjoint 2-by-2 pixel groups.
pub struct Downscaled2x2<I> {
    image: Arc<I>,
}

impl<I> Clone for Downscaled2x2<I> {
    fn clone(&self) -> (r: Downscaled2x2<I>)
        ensures
            r == *self,
    {
        Downscaled2x2 { image: self.image.clone() }
    }
}

impl<I: Image> Downscaled2x2<I> {
    /// The source image, as a mathematical value.
    pub closed spec fn inner_spec(&self) -> Arc<I> {
        self.image
    }

    pub fn inner(&self) -> (r: Arc<I>)
        ensures
            r == self.inner_spec(),
    {
        self.image.clone()
    }
}

impl<I: Image> Image for Downscaled2x2<I> {
    open spec fn spec_width(&self) -> u32 {
        (self.inner_spec().spec_width() / 2) as u32
    }

    open spec fn spec_height(&self) -> u32 {
        (self.inner_spec().spec_height() / 2) as u32
    }

    open spec fn spec_pixel(&self, x: int, y: int) -> u8 {
        spec_downscaled_pixel(*self.inner_spec(), x, y)
    }

    open spec fn wf(&self) -> bool {
        self.inner_spec().wf()
    }

    proof fn lemma_area_fits(&self) {
        self.inner_spec().lemma_area_fits();
        assert((self.inner_spec().spec_width() / 2) * (self.inner_spec().spec_height()
            / 2) <= self.inner_spec().spec_width() * self.inner_spec().spec_height())
            by (nonlinear_arith)
            requires
                self.inner_spec().spec_width() >= 0,
                self.inner_spec().spec_height() >= 0,
        ;
    }

    fn get_size(&self) -> (s: Size) {
        let s = self.image.get_size();
        Size { width: s.width / 2, height: s.height / 2 }
    }

    fn get_width(&self) -> (w: u32) {
        self.get_size().width
    }

    fn get_height(&self) -> (h: u32) {
        self.get_size().height
    }


    fn pixel(&self, x: u32, y: u32) -> (p: Pixel) {
        let sum: u32 = self.image.pixel(2 * x, 2 * y) as u32 + self.image.pixel(
            2 * x + 1,
            2 * y,
        ) as u32 + self.image.pixel(2 * x, 2 * y + 1) as u32 + self.image.pixel(
            2 * x + 1,
            2 * y + 1,
        ) as u32;
        (sum / 4) as u8
    }
}

/// Conversion of an image into a [`Downscaled2x2`] view of it.
pub trait IntoDownscaled<I: Image> {
    /// The image type that backs the view.
    type Target: Image;

    /// The backing image of the view, as a mathematical value.
    spec fn ds_source(&self) -> Self::Target;

    fn downscale_2x2(&self) -> (r: Downscaled2x2<Self::Target>)
        ensures
            r.inner_spec() == self.ds_source(),
    ;
}

impl<I: Image> IntoDownscaled<I> for Square<I> {
    type Target = I;

    open spec fn ds_source(&self) -> I {
        *self.as_inner_spec()
    }

    fn downscale_2x2(&self) -> (r: Downscaled2x2<I>) {
        Downscaled2x2 { image: self.as_inner() }
    }
}

impl<I: Image> IntoDownscaled<I> for SquaredBlock<I> {
    type Target = SquaredBlock<I>;

    open spec fn ds_source(&self) -> SquaredBlock<I> {
        *self
    }

    fn downscale_2x2(&self) -> (r: Downscaled2x2<SquaredBlock<I>>) {
        Downscaled2x2 { image: Arc::new(self.clone()) }
    }
}

} // verus!
