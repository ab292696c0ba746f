use vstd::prelude::*;

use std::sync::Arc;

use crate::image::Image;
use crate::image::Pixel;
use crate::image::Size;
use crate::model::Rotation;

verus! {

/// The source coordinates that a rotated view of a `w` by `h` image reads
/// for its output cell `(x, y)`.
pub open spec fn spec_rotated_source(r: Rotation, w: int, h: int, x: int, y: int) -> (
    int,
    int,
) {
    match r {
        Rotation::By0 => (x, y),
        Rotation::By90 => (y, h - 1 - x),
        Rotation::By180 => (w - 1 - x, h - 1 - y),
        Rotation::By270 => (w - 1 - y, x),
    }
}

/// A read-only view that turns its source by a quarter-turn multiple.
/// Under a quarter turn or three, width and height swap.
pub struct Rotated<I> {
    pub image: Arc<I>,
    pub rotation: Rotation,
}

impl<I> Clone for Rotated<I> {
    fn clone(&self) -> (r: Rotated<I>)
        ensures
            r == *self,
    {
        Rotated { image: self.image.clone(), rotation: self.rotation }
    }
}

impl<I: Image> Rotated<I> {
    /// The source image, as a mathematical value.
    pub open spec fn inner_spec(&self) -> Arc<I> {
        self.image
    }

    pub fn inner(&self) -> (r: Arc<I>)
        ensures
            r == self.inner_spec(),
    {
        self.image.clone()
    }
}

impl<I: Image> Image for Rotated<I> {
    open spec fn spec_width(&self) -> u32 {
        match self.rotation {
            Rotation::By0 | Rotation::By180 => self.inner_spec().spec_width(),
            Rotation::By90 | Rotation::By270 => self.inner_spec().spec_height(),
        }
    }

    open spec fn spec_height(&self) -> u32 {
        match self.rotation {
            Rotation::By0 | Rotation::By180 => self.inner_spec().spec_height(),
            Rotation::By90 | Rotation::By270 => self.inner_spec().spec_width(),
        }
    }

    open spec fn spec_pixel(&self, x: int, y: int) -> u8 {
        let sxy = spec_rotated_source(
            self.rotation,
            self.inner_spec().spec_width() as int,
            self.inner_spec().spec_height() as int,
            x,
            y,
        );
        self.inner_spec().spec_pixel(sxy.0, sxy.1)
    }

    open spec fn wf(&self) -> bool {
        self.inner_spec().wf()
    }

    proof fn lemma_area_fits(&self) {
        self.inner_spec().lemma_area_fits();
        assert(self.inner_spec().spec_width() * self.inner_spec().spec_height()
            == self.inner_spec().spec_height() * self.inner_spec().spec_width())
            by (nonlinear_arith);
    }

    fn get_size(&self) -> (s: Size) {
        match self.rotation {
            Rotation::By0 | Rotation::By180 => self.image.get_size(),
            Rotation::By90 | Rotation::By270 => self.image.get_size().transpose(),
        }
    }

    fn get_width(&self) -> (w: u32) {
        self.get_size().width
    }

    fn get_height(&self) -> (h: u32) {
        self.get_size().height
    }


    fn pixel(&self, x: u32, y: u32) -> (p: Pixel) {
        match self.rotation {
            Rotation::By0 => self.image.pixel(x, y),
            Rotation::By90 => self.image.pixel(y, self.get_width() - 1 - x),
            Rotation::By180 => self.image.pixel(
                self.get_width() - 1 - x,
                self.get_height() - 1 - y,
            ),
            Rotation::By270 => self.image.pixel(self.get_height() - 1 - y, x),
        }
    }
}

/// Conversion of an image into a [`Rotated`] view of it.
pub trait IntoRotated<I: Image>: Sized {
    /// The source image that the view will read, as a mathematical value.
    spec fn rot_source(&self) -> I;

    fn rot(self, rotation: Rotation) -> (r: Rotated<I>)
        ensures
            r.inner_spec() == self.rot_source(),
            r.rotation == rotation,
    ;

    fn rot_0(self) -> (r: Rotated<I>)
        ensures
            r.inner_spec() == self.rot_source(),
            r.rotation == Rotation::By0,
    {
        self.rot(Rotation::By0)
    }

    fn rot_90(self) -> (r: Rotated<I>)
        ensures
            r.inner_spec() == self.rot_source(),
            r.rotation == Rotation::By90,
    {
        self.rot(Rotation::By90)
    }

    fn rot_180(self) -> (r: Rotated<I>)
        ensures
            r.inner_spec() == self.rot_source(),
            r.rotation == Rotation::By180,
    {
        self.rot(Rotation::By180)
    }

    fn rot_270(self) -> (r: Rotated<I>)
        ensures
            r.inner_spec() == self.rot_source(),
            r.rotation == Rotation::By270,
    {
        self.rot(Rotation::By270)
    }
}

impl<I: Image> IntoRotated<I> for I {
    open spec fn rot_source(&self) -> I {
        *self
    }

    fn rot(self, rotation: Rotation) -> (r: Rotated<I>) {
        Rotated { image: Arc::new(self), rotation }
    }
}

impl<I: Image> IntoRotated<I> for Arc<I> {
    open spec fn rot_source(&self) -> I {
        **self
    }

    fn rot(self, rotation: Rotation) -> (r: Rotated<I>) {
        Rotated { image: self, rotation }
    }
}

/// A quarter turn leaves the source pixels in place: the view of `(x, y)`
/// reads a source cell, and reading it back through the inverse quarter turn
/// returns to `(x, y)`.  Composing the coordinate map of a quarter turn four
/// times is therefore the identity, composing the half-turn map twice is the
/// identity, and the zero turn is the identity outright.
pub proof fn lemma_rotation_involution(w: int, h: int, x: int, y: int)
    requires
        0 <= x < w,
        0 <= y < h,
    ensures
        spec_rotated_source(Rotation::By0, w, h, x, y) == (x, y),
        ({
            // one quarter turn of the w-by-h source: view is h-by-w
            let s1 = spec_rotated_source(Rotation::By90, w, h, x, y);
            // the remaining three quarter turns return to the start
            let s2 = spec_rotated_source(Rotation::By90, w, h, s1.0, s1.1);
            let s3 = spec_rotated_source(Rotation::By90, w, h, s2.0, s2.1);
            let s4 = spec_rotated_source(Rotation::By90, w, h, s3.0, s3.1);
            s4 == (x, y)
        }),
        ({
            let s1 = spec_rotated_source(Rotation::By180, w, h, x, y);
            let s2 = spec_rotated_source(Rotation::By180, w, h, s1.0, s1.1);
            s2 == (x, y)
        }),
{
}

/// The involution at the level of whole views: a stack of four quarter-turn
/// views over one source shows every pixel of the source unchanged, as does
/// a stack of two half-turn views.  The sizes of the nested views follow the
/// transposition rule, so the outermost view has the source's size.
pub proof fn lemma_rotated_stack_identity<I: Image>(
    r4: Rotated<Rotated<Rotated<Rotated<I>>>>,
    r2: Rotated<Rotated<I>>,
    x: int,
    y: int,
)
    requires
        r4.rotation == Rotation::By90,
        r4.inner_spec().rotation == Rotation::By90,
        r4.inner_spec().inner_spec().rotation == Rotation::By90,
        r4.inner_spec().inner_spec().inner_spec().rotation == Rotation::By90,
        r2.rotation == Rotation::By180,
        r2.inner_spec().rotation == Rotation::By180,
    ensures
        r4.spec_width() == r4.inner_spec().inner_spec().inner_spec().inner_spec()
            .spec_width(),
        r4.spec_height() == r4.inner_spec().inner_spec().inner_spec().inner_spec()
            .spec_height(),
        0 <= x < r4.spec_width() && 0 <= y < r4.spec_height() ==> r4.spec_pixel(x, y)
            == r4.inner_spec().inner_spec().inner_spec().inner_spec().spec_pixel(x, y),
        r2.spec_width() == r2.inner_spec().inner_spec().spec_width(),
        r2.spec_height() == r2.inner_spec().inner_spec().spec_height(),
        0 <= x < r2.spec_width() && 0 <= y < r2.spec_height() ==> r2.spec_pixel(x, y)
            == r2.inner_spec().inner_spec().spec_pixel(x, y),
{
}

} // verus!
