use vstd::prelude::*;

use std::sync::Arc;

use crate::image::Image;
use crate::image::Pixel;
use crate::image::Size;

verus! {

/// Whether `v` is a power of two.
pub open spec fn spec_is_power_of_two(v: nat) -> bool
    decreases v,
{
    if v == 0 {
        false
    } else if v == 1 {
        true
    } else {
        v % 2 == 0 && spec_is_power_of_two(v / 2)
    }
}

pub fn is_power_of_two(val: u32) -> (r: bool)
    ensures
        r == spec_is_power_of_two(val as nat),
{
    if val == 0 {
        return false;
    }
    let mut v: u32 = val;
    while v % 2 == 0
        invariant
            v >= 1,
            spec_is_power_of_two(val as nat) == spec_is_power_of_two(v as nat),
        decreases v,
    {
        v = v / 2;
    }
    v == 1
}

/// An image wrapper that witnesses that both dimensions of the wrapped image
/// are powers of two.
///
/// The wrapper adds no behaviour of its own; constructing it checks the
/// dimensions.
#[derive(Debug, Clone)]
pub struct PowerOfTwo<I>(Arc<I>);

/// The error returned when a [`PowerOfTwo`] is requested of an image whose
/// width or height is not a power of two.
#[derive(Debug, Copy, Clone, PartialEq, Eq, Structural)]
pub struct NoPowerOfTwo(pub Size);

impl<I: Image> PowerOfTwo<I> {
    pub fn new(image: I) -> (r: Result<PowerOfTwo<I>, NoPowerOfTwo>)
        requires
            image.wf(),
        ensures
            match r {
                Ok(p) => spec_is_power_of_two(image.spec_width() as nat)
                    && spec_is_power_of_two(image.spec_height() as nat)
                    && p.as_inner_spec() == image,
                Err(e) => (!spec_is_power_of_two(image.spec_width() as nat)
                    || !spec_is_power_of_two(image.spec_height() as nat)) && e == (
                NoPowerOfTwo(
                    Size { width: image.spec_width(), height: image.spec_height() },
                )),
            },
    {
        PowerOfTwo::new_arc(Arc::new(image))
    }

    pub fn new_arc(image: Arc<I>) -> (r: Result<PowerOfTwo<I>, NoPowerOfTwo>)
        requires
            image.wf(),
        ensures
            match r {
                Ok(p) => spec_is_power_of_two(image.spec_width() as nat)
                    && spec_is_power_of_two(image.spec_height() as nat)
                    && p.as_inner_spec() == image,
                Err(e) => (!spec_is_power_of_two(image.spec_width() as nat)
                    || !spec_is_power_of_two(image.spec_height() as nat)) && e == (
                NoPowerOfTwo(
                    Size { width: image.spec_width(), height: image.spec_height() },
                )),
            },
    {
        if !is_power_of_two(image.get_width()) || !is_power_of_two(image.get_height()) {
            Err(NoPowerOfTwo(image.get_size()))
        } else {
            Ok(PowerOfTwo(image))
        }
    }

    /// The wrapped image, as a mathematical value.
    pub closed spec fn as_inner_spec(&self) -> Arc<I> {
        self.0
    }

    pub fn as_inner(&self) -> (r: Arc<I>)
        ensures
            r == self.as_inner_spec(),
    {
        self.0.clone()
    }

    pub fn into_inner(self) -> (r: Arc<I>)
        ensures
            r == self.as_inner_spec(),
    {
        self.0
    }
}

impl<I: Image> Image for PowerOfTwo<I> {
    open spec fn spec_width(&self) -> u32 {
        self.as_inner_spec().spec_width()
    }

    open spec fn spec_height(&self) -> u32 {
        self.as_inner_spec().spec_height()
    }

    open spec fn spec_pixel(&self, x: int, y: int) -> u8 {
        self.as_inner_spec().spec_pixel(x, y)
    }

    open spec fn wf(&self) -> bool {
        self.as_inner_spec().wf() && spec_is_power_of_two(
            self.as_inner_spec().spec_width() as nat,
        ) && spec_is_power_of_two(self.as_inner_spec().spec_height() as nat)
    }

    proof fn lemma_area_fits(&self) {
        self.as_inner_spec().lemma_area_fits();
    }

    fn get_size(&self) -> (s: Size) {
        self.0.get_size()
    }

    fn get_width(&self) -> (w: u32) {
        self.get_size().width
    }

    fn get_height(&self) -> (h: u32) {
        self.get_size().height
    }


    fn pixel(&self, x: u32, y: u32) -> (p: Pixel) {
        self.0.pixel(x, y)
    }
}

} // verus!
