use vstd::prelude::*;

use crate::image::Coords;

verus! {

/// A square region of an image: its side length and its top-left corner.
#[derive(Debug, Copy, Clone, PartialEq, Eq, Structural)]
pub struct Block {
    pub block_size: u32,
    pub origin: Coords,
}

impl Block {
    /// Whether the block lies inside an image of width `w` and height `h`.
    pub open spec fn spec_fits(&self, w: u32, h: u32) -> bool {
        self.origin.x + self.block_size <= w && self.origin.y + self.block_size <= h
    }

    /// Whether `(x, y)` lies inside the block.
    pub open spec fn spec_covers(&self, x: int, y: int) -> bool {
        self.origin.x <= x < self.origin.x + self.block_size && self.origin.y <= y
            < self.origin.y + self.block_size
    }

    /// The row-major buffer index that cell `k` of this block has in a raster
    /// of width `image_width` and height `image_height`, following the
    /// convention of [`Block::indices`].
    pub open spec fn spec_index(
        &self,
        image_width: u32,
        image_height: u32,
        k: int,
    ) -> int {
        let i = k / (self.block_size as int);
        let j = k % (self.block_size as int);
        self.origin.y * image_width + self.origin.x + image_height * i + j
    }

    /// Lists the buffer positions of this block inside a raster of the given
    /// size, each with its absolute coordinates, row by row.
    pub fn indices(&self, image_width: u32, image_height: u32) -> (r: Vec<(usize, Coords)>)
        requires
            self.block_size * self.block_size <= u32::MAX,
            self.origin.x + self.block_size <= u32::MAX,
            self.origin.y + self.block_size <= u32::MAX,
            self.origin.y * image_width + self.origin.x + image_height * self.block_size
                + self.block_size <= u32::MAX,
            u32::MAX <= usize::MAX,
        ensures
            r@.len() == self.block_size * self.block_size,
            forall|k: int|
                0 <= k < r@.len() ==> r@[k] == (
                    self.spec_index(image_width, image_height, k) as usize,
                    Coords {
                        x: (self.origin.x + k % (self.block_size as int)) as u32,
                        y: (self.origin.y + k / (self.block_size as int)) as u32,
                    },
                ),
    {
        let bs = self.block_size;
        let mut r: Vec<(usize, Coords)> = Vec::new();
        let mut i: u32 = 0;
        while i < bs
            invariant
                bs == self.block_size,
                bs * bs <= u32::MAX,
                self.origin.x + bs <= u32::MAX,
                self.origin.y + bs <= u32::MAX,
                self.origin.y * image_width + self.origin.x + image_height * bs + bs
                    <= u32::MAX,
                u32::MAX <= usize::MAX,
                i <= bs,
                r@.len() == i * bs,
                forall|k: int|
                    0 <= k < r@.len() ==> r@[k] == (
                        self.spec_index(image_width, image_height, k) as usize,
                        Coords {
                            x: (self.origin.x + k % (bs as int)) as u32,
                            y: (self.origin.y + k / (bs as int)) as u32,
                        },
                    ),
            decreases bs - i,
        {
            let mut j: u32 = 0;
            while j < bs
                invariant
                    bs == self.block_size,
                    bs * bs <= u32::MAX,
                    self.origin.x + bs <= u32::MAX,
                    self.origin.y + bs <= u32::MAX,
                    self.origin.y * image_width + self.origin.x + image_height * bs + bs
                        <= u32::MAX,
                    u32::MAX <= usize::MAX,
                    i < bs,
                    j <= bs,
                    r@.len() == i * bs + j,
                    forall|k: int|
                        0 <= k < r@.len() ==> r@[k] == (
                            self.spec_index(image_width, image_height, k) as usize,
                            Coords {
                                x: (self.origin.x + k % (bs as int)) as u32,
                                y: (self.origin.y + k / (bs as int)) as u32,
                            },
                        ),
                decreases bs - j,
            {
                proof {
                    assert(i * bs + j < bs * bs && image_height * i <= image_height * bs
                        && 0 <= image_height * i && 0 <= image_height * bs && 0
                        <= self.origin.y * image_width) by (nonlinear_arith)
                        requires
                            0 <= j < bs,
                            0 <= i < bs,
                            0 <= image_height,
                            0 <= self.origin.y,
                            0 <= image_width,
                    ;
                    assert((i * bs + j) / (bs as int) == i && (i * bs + j) % (bs as int)
                        == j) by (nonlinear_arith)
                        requires
                            0 <= j < bs,
                            0 <= i,
                    ;
                }
                let index = self.origin.y * image_width + self.origin.x + image_height * i
                    + j;
                r.push((index as usize, Coords { x: self.origin.x + j, y: self.origin.y + i }));
                j = j + 1;
            }
            proof {
                assert((i + 1) * bs == i * bs + bs) by (nonlinear_arith);
            }
            i = i + 1;
        }
        r
    }
}

} // verus!
