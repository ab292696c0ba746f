use vstd::prelude::*;

pub mod block;
pub mod downscale;
pub mod fake;
pub mod gen;
pub mod iter;
pub mod owned;
pub mod power_of_two;
pub mod rotate;
pub mod square;

pub use block::IntoSquaredBlocks;
pub use block::SquareSizeDoesNotDivideImageSize;
pub use block::SquaredBlock;
pub use downscale::Downscaled2x2;
pub use downscale::IntoDownscaled;
pub use fake::FakeImage;
pub use owned::OwnedImage;
pub use power_of_two::NoPowerOfTwo;
pub use power_of_two::PowerOfTwo;
pub use rotate::IntoRotated;
pub use rotate::Rotated;
pub use square::NotSquareError;
pub use square::Square;

verus! {

/// A grayscale pixel intensity.
pub type Pixel = u8;

/// The dimensions of an image, in pixels.
#[derive(Debug, Copy, Clone, PartialEq, Eq, Structural)]
pub struct Size {
    pub width: u32,
    pub height: u32,
}

impl Size {
    /// The number of pixels of an image of this size, as a mathematical integer.
    pub open spec fn spec_area(&self) -> int {
        self.width * self.height
    }

    pub fn new(width: u32, height: u32) -> (s: Size)
        ensures
            s == (Size { width, height }),
    {
        Size { width, height }
    }

    pub fn squared(size: u32) -> (s: Size)
        ensures
            s == (Size { width: size, height: size }),
    {
        Size::new(size, size)
    }

    pub fn area(&self) -> (a: u32)
        requires
            self.spec_area() <= u32::MAX,
        ensures
            a == self.spec_area(),
    {
        self.width * self.height
    }

    pub fn get_width(&self) -> (w: u32)
        ensures
            w == self.width,
    {
        self.width
    }

    pub fn get_height(&self) -> (h: u32)
        ensures
            h == self.height,
    {
        self.height
    }

    /// Returns `true` iff `self.width == self.height`.
    pub fn is_squared(&self) -> (r: bool)
        ensures
            r == (self.width == self.height),
    {
        self.width == self.height
    }

    /// Swaps width and height.
    pub fn transpose(&self) -> (s: Size)
        ensures
            s == (Size { width: self.height, height: self.width }),
    {
        Size::new(self.height, self.width)
    }
}

/// The coordinates of a pixel; the origin is the top-left corner, `x` grows
/// to the right and `y` grows downwards.
#[derive(Debug, Copy, Clone, PartialEq, Eq, Structural)]
pub struct Coords {
    pub x: u32,
    pub y: u32,
}

impl Coords {
    /// Componentwise sum of two coordinate pairs.
    pub fn add(self, rhs: Coords) -> (r: Coords)
        requires
            self.x + rhs.x <= u32::MAX,
            self.y + rhs.y <= u32::MAX,
        ensures
            r == (Coords { x: (self.x + rhs.x) as u32, y: (self.y + rhs.y) as u32 }),
    {
        Coords { x: self.x + rhs.x, y: self.y + rhs.y }
    }
}

/// A read-only, pixel-addressable raster.
///
/// Every implementation carries a mathematical model of itself: its
/// dimensions, a total pixel function, and a well-formedness condition that
/// the executable accessors rely on.
pub trait Image: Sized {
    /// The width of the image, in pixels.
    spec fn spec_width(&self) -> u32;

    /// The height of the image, in pixels.
    spec fn spec_height(&self) -> u32;

    /// The intensity at `(x, y)`, as a total mathematical function.
    spec fn spec_pixel(&self, x: int, y: int) -> u8;

    /// The internal consistency condition of the value.
    spec fn wf(&self) -> bool;

    /// Every well-formed image has at most `u32::MAX` pixels.
    proof fn lemma_area_fits(&self)
        requires
            self.wf(),
        ensures
            self.spec_width() * self.spec_height() <= u32::MAX,
    ;

    fn get_size(&self) -> (s: Size)
        requires
            self.wf(),
        ensures
            s.width == self.spec_width(),
            s.height == self.spec_height(),
    ;

    fn get_width(&self) -> (w: u32)
        requires
            self.wf(),
        ensures
            w == self.spec_width(),
    ;

    fn get_height(&self) -> (h: u32)
        requires
            self.wf(),
        ensures
            h == self.spec_height(),
    ;

    fn pixel(&self, x: u32, y: u32) -> (p: u8)
        requires
            self.wf(),
            x < self.spec_width(),
            y < self.spec_height(),
        ensures
            p == self.spec_pixel(x as int, y as int),
    ;
}

/// Row-major extraction of all pixels of an image.
pub trait IterablePixels: Image {
    /// All pixels in row-major order.
    fn pixels(&self) -> (r: Vec<u8>)
        requires
            self.wf(),
        ensures
            r@.len() == self.spec_width() * self.spec_height(),
            forall|k: int|
                0 <= k < r@.len() ==> r@[k] == self.spec_pixel(
                    k % (self.spec_width() as int),
                    k / (self.spec_width() as int),
                ),
    ;

    /// All pixels in row-major order, each with its coordinates.
    fn pixels_enumerated(&self) -> (r: Vec<(u8, Coords)>)
        requires
            self.wf(),
        ensures
            r@.len() == self.spec_width() * self.spec_height(),
            forall|k: int|
                0 <= k < r@.len() ==> r@[k] == (
                    self.spec_pixel(
                        k % (self.spec_width() as int),
                        k / (self.spec_width() as int),
                    ),
                    Coords {
                        x: (k % (self.spec_width() as int)) as u32,
                        y: (k / (self.spec_width() as int)) as u32,
                    },
                ),
    ;
}

impl<T: Image> IterablePixels for T {
    fn pixels(&self) -> (r: Vec<u8>) {
        proof {
            self.lemma_area_fits();
        }
        let w = self.get_width();
        let h = self.get_height();
        let mut r: Vec<u8> = Vec::new();
        let mut y: u32 = 0;
        while y < h
            invariant
                self.wf(),
                w == self.spec_width(),
                h == self.spec_height(),
                w * h <= u32::MAX,
                y <= h,
                r@.len() == y * w,
                forall|k: int|
                    0 <= k < r@.len() ==> r@[k] == self.spec_pixel(k % (w as int), k / (w as int)),
            decreases h - y,
        {
            let mut x: u32 = 0;
            while x < w
                invariant
                    self.wf(),
                    w == self.spec_width(),
                    h == self.spec_height(),
                    w * h <= u32::MAX,
                    y < h,
                    x <= w,
                    r@.len() == y * w + x,
                    forall|k: int|
                        0 <= k < r@.len() ==> r@[k] == self.spec_pixel(
                            k % (w as int),
                            k / (w as int),
                        ),
                decreases w - x,
            {
                proof {
                    lemma_row_major_bound(w as int, h as int, x as int, y as int);
                }
                let p = self.pixel(x, y);
                r.push(p);
                proof {
                    lemma_row_major_index(w as int, x as int, y as int);
                }
                x = x + 1;
            }
            proof {
                assert((y + 1) * w == y * w + w) by (nonlinear_arith);
            }
            y = y + 1;
        }
        proof {
            assert(h * w == w * h) by (nonlinear_arith);
        }
        r
    }

    fn pixels_enumerated(&self) -> (r: Vec<(u8, Coords)>) {
        proof {
            self.lemma_area_fits();
        }
        let w = self.get_width();
        let h = self.get_height();
        let mut r: Vec<(u8, Coords)> = Vec::new();
        let mut y: u32 = 0;
        while y < h
            invariant
                self.wf(),
                w == self.spec_width(),
                h == self.spec_height(),
                w * h <= u32::MAX,
                y <= h,
                r@.len() == y * w,
                forall|k: int|
                    0 <= k < r@.len() ==> r@[k] == (
                        self.spec_pixel(k % (w as int), k / (w as int)),
                        Coords { x: (k % (w as int)) as u32, y: (k / (w as int)) as u32 },
                    ),
            decreases h - y,
        {
            let mut x: u32 = 0;
            while x < w
                invariant
                    self.wf(),
                    w == self.spec_width(),
                    h == self.spec_height(),
                    w * h <= u32::MAX,
                    y < h,
                    x <= w,
                    r@.len() == y * w + x,
                    forall|k: int|
                        0 <= k < r@.len() ==> r@[k] == (
                            self.spec_pixel(k % (w as int), k / (w as int)),
                            Coords { x: (k % (w as int)) as u32, y: (k / (w as int)) as u32 },
                        ),
                decreases w - x,
            {
                proof {
                    lemma_row_major_bound(w as int, h as int, x as int, y as int);
                }
                let p = self.pixel(x, y);
                r.push((p, Coords { x, y }));
                proof {
                    lemma_row_major_index(w as int, x as int, y as int);
                }
                x = x + 1;
            }
            proof {
                assert((y + 1) * w == y * w + w) by (nonlinear_arith);
            }
            y = y + 1;
        }
        proof {
            assert(h * w == w * h) by (nonlinear_arith);
        }
        r
    }
}

/// In a row-major raster of width `w`, the cell `(x, y)` has index `y * w + x`,
/// which stays below `w * h`.
pub proof fn lemma_row_major_bound(w: int, h: int, x: int, y: int)
    requires
        0 <= x < w,
        0 <= y < h,
    ensures
        y * w + x < w * h,
{
    assert(y * w + x < w * h) by (nonlinear_arith)
        requires
            0 <= x < w,
            0 <= y < h,
    ;
}

/// The index `y * w + x` decomposes back into `(x, y)`.
pub proof fn lemma_row_major_index(w: int, x: int, y: int)
    requires
        0 <= x < w,
        0 <= y,
    ensures
        (y * w + x) % w == x,
        (y * w + x) / w == y,
{
    assert((y * w + x) % w == x && (y * w + x) / w == y) by (nonlinear_arith)
        requires
            0 <= x < w,
            0 <= y,
    ;
}

/// A raster whose pixels can be overwritten in place.
pub trait MutableImage: Image {
    fn set_pixel(&mut self, x: u32, y: u32, value: Pixel)
        requires
            old(self).wf(),
            x < old(self).spec_width(),
            y < old(self).spec_height(),
        ensures
            final(self).wf(),
            final(self).spec_width() == old(self).spec_width(),
            final(self).spec_height() == old(self).spec_height(),
            final(self).spec_pixel(x as int, y as int) == value,
            forall|i: int, j: int|
                0 <= i < old(self).spec_width() && 0 <= j < old(self).spec_height() && !(i
                    == x && j == y) ==> final(self).spec_pixel(i, j) == old(
                    self,
                ).spec_pixel(i, j),
    ;
}

/// In a row-major raster of width `w` and height `h`, the cell `(x, y)` has
/// index `y * w + x`, which lies inside the buffer.
pub proof fn lemma_index_in_area(w: int, h: int, x: int, y: int)
    requires
        0 <= x < w,
        0 <= y < h,
    ensures
        0 <= y * w + x < w * h,
{
    lemma_row_major_bound(w, h, x, y);
    assert(y * w >= 0) by (nonlinear_arith)
        requires
            y >= 0,
            w >= 0,
    ;
}

/// Distinct cells of a row-major raster have distinct buffer indices.
pub proof fn lemma_distinct_cells_distinct_indices(w: int, x: int, y: int, i: int, j: int)
    requires
        0 <= x < w,
        0 <= i < w,
        0 <= y,
        0 <= j,
        !(i == x && j == y),
    ensures
        j * w + i != y * w + x,
{
    if j * w + i == y * w + x {
        lemma_row_major_index(w, x, y);
        lemma_row_major_index(w, i, j);
        assert(false);
    }
}

} // verus!
