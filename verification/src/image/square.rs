use vstd::prelude::*;

use std::sync::Arc;

use crate::image::Image;
use crate::image::Pixel;
use crate::image::Size;

verus! {

/// An image wrapper that witnesses that the wrapped image is a square.
///
/// The wrapper adds no behaviour of its own; constructing it checks that the
/// underlying image has equal width and height.
#[derive(Debug, Clone)]
pub struct Square<I>(Arc<I>);

/// The error returned when a [`Square`] is requested of an image whose width
/// and height differ.
#[derive(Debug, Clone, PartialEq, Eq)]
pub struct NotSquareError<I>(pub Arc<I>);

impl<I: Image> Square<I> {
    pub fn new(image: I) -> (r: Result<Square<I>, NotSquareError<I>>)
        requires
            image.wf(),
        ensures
            match r {
                Ok(s) => image.spec_width() == image.spec_height() && s.as_inner_spec()
                    == image,
                Err(e) => image.spec_width() != image.spec_height() && e.0 == image,
            },
    {
        Square::new_arc(Arc::new(image))
    }

    pub fn new_arc(image: Arc<I>) -> (r: Result<Square<I>, NotSquareError<I>>)
        requires
            image.wf(),
        ensures
            match r {
                Ok(s) => image.spec_width() == image.spec_height() && s.as_inner_spec()
                    == image,
                Err(e) => image.spec_width() != image.spec_height() && e.0 == image,
            },
    {
        if image.get_size().is_squared() {
            Ok(Square(image))
        } else {
            Err(NotSquareError(image))
        }
    }

    /// The wrapped image, as a mathematical value.
    pub closed spec fn as_inner_spec(&self) -> Arc<I> {
        self.0
    }

    pub fn as_inner(&self) -> (r: Arc<I>)
        ensures
            r == self.as_inner_spec(),
    {
        self.0.clone()
    }

    pub fn into_inner(self) -> (r: Arc<I>)
        ensures
            r == self.as_inner_spec(),
    {
        self.0
    }
}

impl<I: Image> Image for Square<I> {
    open spec fn spec_width(&self) -> u32 {
        self.as_inner_spec().spec_width()
    }

    open spec fn spec_height(&self) -> u32 {
        self.as_inner_spec().spec_height()
    }

    open spec fn spec_pixel(&self, x: int, y: int) -> u8 {
        self.as_inner_spec().spec_pixel(x, y)
    }

    open spec fn wf(&self) -> bool {
        self.as_inner_spec().wf() && self.as_inner_spec().spec_width()
            == self.as_inner_spec().spec_height()
    }

    proof fn lemma_area_fits(&self) {
        self.as_inner_spec().lemma_area_fits();
    }

    fn get_size(&self) -> (s: Size) {
        self.0.get_size()
    }

    fn get_width(&self) -> (w: u32) {
        self.get_size().width
    }

    fn get_height(&self) -> (h: u32) {
        self.get_size().height
    }


    fn pixel(&self, x: u32, y: u32) -> (p: Pixel) {
        self.0.pixel(x, y)
    }
}

} // verus!
