use vstd::prelude::*;

use vstd::pervasive::VecAdditionalExecFns;

use rand::RngExt;
use rand::SeedableRng;

use crate::image::Image;
use crate::image::MutableImage;
use crate::image::Pixel;
use crate::image::Size;

verus! {

#[verifier::external_type_specification]
#[verifier::external_body]
pub struct ExStdRng(rand::rngs::StdRng);

/// Relies on rand's `SeedableRng::seed_from_u64` to build a deterministic
/// pseudo-random generator from the seed.
#[verifier::external_body]
fn rng_from_seed(seed: u64) -> rand::rngs::StdRng {
    rand::rngs::StdRng::seed_from_u64(seed)
}

/// Relies on rand's `RngExt::random_range` to draw a value below 256; any
/// byte may come back.
#[verifier::external_body]
fn random_pixel(rng: &mut rand::rngs::StdRng) -> (p: u8) {
    rng.random_range(0..256u32) as u8
}

/// A raster that owns its pixels in a row-major `Vec`.
#[derive(Clone, Debug, Eq, PartialEq)]
pub struct OwnedImage {
    pub size: Size,
    pub data: Vec<u8>,
}

impl OwnedImage {
    /// A raster of the given size filled with pseudo-random pixels.  The
    /// generator is seeded with the pixel count, so equal sizes give equal
    /// rasters within one build of the crate.
    pub fn random(size: Size) -> (r: OwnedImage)
        requires
            size.spec_area() <= u32::MAX,
        ensures
            r.wf(),
            r.size == size,
    {
        let seed = size.area() as u64;
        OwnedImage::random_with_seed(size, seed)
    }

    /// A raster of the given size filled with pseudo-random pixels drawn
    /// from a generator seeded with `seed`.
    pub fn random_with_seed(size: Size, seed: u64) -> (r: OwnedImage)
        requires
            size.spec_area() <= u32::MAX,
        ensures
            r.wf(),
            r.size == size,
    {
        let n = size.area();
        let mut rng = rng_from_seed(seed);
        let mut data: Vec<u8> = Vec::new();
        let mut i: u32 = 0;
        while i < n
            invariant
                i <= n,
                data@.len() == i,
            decreases n - i,
        {
            let p = random_pixel(&mut rng);
            data.push(p);
            i = i + 1;
        }
        OwnedImage { size, data }
    }

    /// An exact copy, pixel for pixel.
    pub fn duplicate(&self) -> (r: OwnedImage)
        ensures
            r.size == self.size,
            r.data@ == self.data@,
    {
        let data = self.data.clone();
        proof {
            assert(data@ =~= self.data@);
        }
        OwnedImage { size: self.size, data }
    }
}

impl Image for OwnedImage {
    open spec fn spec_width(&self) -> u32 {
        self.size.width
    }

    open spec fn spec_height(&self) -> u32 {
        self.size.height
    }

    open spec fn spec_pixel(&self, x: int, y: int) -> u8 {
        self.data@[y * self.size.width + x]
    }

    open spec fn wf(&self) -> bool {
        &&& self.size.width * self.size.height <= u32::MAX
        &&& self.data@.len() == self.size.width * self.size.height
    }

    proof fn lemma_area_fits(&self) {
    }

    fn get_size(&self) -> (s: Size) {
        self.size
    }

    fn get_width(&self) -> (w: u32) {
        self.get_size().width
    }

    fn get_height(&self) -> (h: u32) {
        self.get_size().height
    }


    fn pixel(&self, x: u32, y: u32) -> (p: Pixel) {
        proof {
            crate::image::lemma_index_in_area(
                self.size.width as int,
                self.size.height as int,
                x as int,
                y as int,
            );
        }
        let idx = y * self.size.width + x;
        self.data[idx as usize]
    }
}

impl MutableImage for OwnedImage {
    fn set_pixel(&mut self, x: u32, y: u32, value: Pixel) {
        proof {
            crate::image::lemma_index_in_area(
                self.size.width as int,
                self.size.height as int,
                x as int,
                y as int,
            );
        }
        let idx = y * self.size.width + x;
        self.data.set(idx as usize, value);
        proof {
            assert forall|i: int, j: int|
                0 <= i < old(self).spec_width() && 0 <= j < old(self).spec_height() && !(
                i == x && j == y) implies self.spec_pixel(i, j) == old(self).spec_pixel(
                i,
                j,
            ) by {
                crate::image::lemma_distinct_cells_distinct_indices(
                    self.size.width as int,
                    x as int,
                    y as int,
                    i,
                    j,
                );
                crate::image::lemma_index_in_area(
                    self.size.width as int,
                    self.size.height as int,
                    i,
                    j,
                );
            }
        }
    }
}

} // verus!
