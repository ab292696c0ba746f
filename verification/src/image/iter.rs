use vstd::prelude::*;

use crate::image::Coords;
use crate::image::Image;
use crate::image::Pixel;

verus! {

/// The coordinates that follow `c` in row-major order over a `w` by `h`
/// raster, or `None` past the last cell.
pub open spec fn spec_next_coords(w: u32, h: u32, c: Coords) -> Option<Coords> {
    if c.x + 1 < w {
        Some(Coords { x: (c.x + 1) as u32, y: c.y })
    } else if c.y + 1 < h {
        Some(Coords { x: 0, y: (c.y + 1) as u32 })
    } else {
        None
    }
}

/// A cursor over the pixels of an image, in row-major order.
pub struct PixelIterator<'a, I: Image> {
    image: &'a I,
    next: Option<Coords>,
}

impl<'a, I: Image> PixelIterator<'a, I> {
    /// The image being walked.
    pub closed spec fn image_spec(&self) -> I {
        *self.image
    }

    /// The position the next call of [`PixelIterator::next`] will report.
    pub closed spec fn cursor(&self) -> Option<Coords> {
        self.next
    }

    /// The cursor either is exhausted or points at a cell of the image.
    pub open spec fn inv(&self) -> bool {
        self.image_spec().wf() && match self.cursor() {
            Some(c) => c.x < self.image_spec().spec_width() && c.y
                < self.image_spec().spec_height(),
            None => true,
        }
    }

    pub fn new(image: &'a I) -> (r: PixelIterator<'a, I>)
        requires
            image.wf(),
        ensures
            r.inv(),
            r.image_spec() == *image,
            r.cursor() == if image.spec_width() > 0 && image.spec_height() > 0 {
                Some(Coords { x: 0, y: 0 })
            } else {
                Option::<Coords>::None
            },
    {
        let w = image.get_width();
        let h = image.get_height();
        if w > 0 && h > 0 {
            PixelIterator { image, next: Some(Coords { x: 0, y: 0 }) }
        } else {
            PixelIterator { image, next: None }
        }
    }

    /// Yields the pixel under the cursor with its coordinates and advances,
    /// or reports exhaustion.
    pub fn next(&mut self) -> (r: Option<(Pixel, Coords)>)
        requires
            old(self).inv(),
        ensures
            final(self).inv(),
            final(self).image_spec() == old(self).image_spec(),
            match old(self).cursor() {
                Some(c) => r == Some((old(self).image_spec().spec_pixel(c.x as int, c.y as int), c))
                    && final(self).cursor() == spec_next_coords(
                    old(self).image_spec().spec_width(),
                    old(self).image_spec().spec_height(),
                    c,
                ),
                None => r == Option::<(Pixel, Coords)>::None && final(self).cursor()
                    == Option::<Coords>::None,
            },
    {
        match self.next {
            None => None,
            Some(c) => {
                let w = self.image.get_width();
                let h = self.image.get_height();
                let p = self.image.pixel(c.x, c.y);
                if c.x + 1 < w {
                    self.next = Some(Coords { x: c.x + 1, y: c.y });
                } else if c.y + 1 < h {
                    self.next = Some(Coords { x: 0, y: c.y + 1 });
                } else {
                    self.next = None;
                }
                Some((p, c))
            },
        }
    }
}

} // verus!
