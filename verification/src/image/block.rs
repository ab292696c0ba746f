use vstd::prelude::*;

use std::sync::Arc;

use crate::image::square::Square;
use crate::image::Coords;
use crate::image::Image;
use crate::image::Pixel;
use crate::image::Size;
use crate::model::Block;

verus! {

/// A read-only view of a square region of a larger image.
pub struct SquaredBlock<I> {
    pub image: Arc<I>,
    /// The side length of the block.
    pub size: u32,
    /// The position in `image` where this block starts.
    pub origin: Coords,
}

impl<I> Clone for SquaredBlock<I> {
    fn clone(&self) -> (r: SquaredBlock<I>)
        ensures
            r == *self,
    {
        SquaredBlock { image: self.image.clone(), size: self.size, origin: self.origin }
    }
}

impl<I: Image> Image for SquaredBlock<I> {
    open spec fn spec_width(&self) -> u32 {
        self.size
    }

    open spec fn spec_height(&self) -> u32 {
        self.size
    }

    open spec fn spec_pixel(&self, x: int, y: int) -> u8 {
        self.image.spec_pixel(self.origin.x + x, self.origin.y + y)
    }

    open spec fn wf(&self) -> bool {
        &&& self.image.wf()
        &&& self.origin.x + self.size <= self.image.spec_width()
        &&& self.origin.y + self.size <= self.image.spec_height()
    }

    proof fn lemma_area_fits(&self) {
        self.image.lemma_area_fits();
        assert(self.size * self.size <= self.image.spec_width()
            * self.image.spec_height()) by (nonlinear_arith)
            requires
                self.size <= self.image.spec_width(),
                self.size <= self.image.spec_height(),
                0 <= self.size,
        ;
    }

    fn get_size(&self) -> (s: Size) {
        Size::squared(self.size)
    }

    fn get_width(&self) -> (w: u32) {
        self.get_size().width
    }

    fn get_height(&self) -> (h: u32) {
        self.get_size().height
    }


    fn pixel(&self, x: u32, y: u32) -> (p: Pixel) {
        self.image.pixel(self.origin.x + x, self.origin.y + y)
    }
}

/// The error returned when a tiling into blocks of side `s` is requested of
/// an image whose side `s` does not divide.
#[derive(Debug, Copy, Clone, PartialEq, Eq, Structural)]
pub struct SquareSizeDoesNotDivideImageSize(pub Size, pub u32);

/// The origins of the tiling of a squared image of side `n` into blocks of
/// side `size`: block `i` sits at column `i % (n / size)` and row
/// `i / (n / size)`.
pub open spec fn spec_block_origin(n: u32, size: u32, i: int) -> Coords {
    let nb = n as int / size as int;
    Coords { x: (size * (i % nb)) as u32, y: (size * (i / nb)) as u32 }
}

/// Computes the blocks that tile a squared image of size `image_size` into
/// squares of side `size`, in row-major order of the block grid.
pub fn create_blocks(image_size: Size, size: u32) -> (r: Result<
    Vec<Block>,
    SquareSizeDoesNotDivideImageSize,
>)
    requires
        size >= 1,
        image_size.width == image_size.height,
    ensures
        match r {
            Ok(blocks) => {
                &&& image_size.width as int % size as int == 0
                &&& blocks@.len() == (image_size.width as int / size as int) * (
                image_size.width as int / size as int)
                &&& forall|i: int|
                    0 <= i < blocks@.len() ==> blocks@[i] == (Block {
                        block_size: size,
                        origin: spec_block_origin(image_size.width, size, i),
                    })
            },
            Err(e) => image_size.width as int % size as int != 0 && e == (
            SquareSizeDoesNotDivideImageSize(image_size, size)),
        },
{
    if image_size.width % size != 0 || image_size.height % size != 0 {
        return Err(SquareSizeDoesNotDivideImageSize(image_size, size));
    }
    let nb: u32 = image_size.width / size;
    proof {
        assert(size * nb == image_size.width) by (nonlinear_arith)
            requires
                size >= 1,
                image_size.width as int % size as int == 0,
                nb == image_size.width as int / size as int,
        ;
    }
    let mut blocks: Vec<Block> = Vec::new();
    let mut by: u32 = 0;
    while by < nb
        invariant
            size >= 1,
            image_size.width % size == 0,
            nb == image_size.width as int / size as int,
            size * nb == image_size.width,
            by <= nb,
            blocks@.len() == by * nb,
            forall|i: int|
                0 <= i < blocks@.len() ==> blocks@[i] == (Block {
                    block_size: size,
                    origin: spec_block_origin(image_size.width, size, i),
                }),
        decreases nb - by,
    {
        let mut bx: u32 = 0;
        while bx < nb
            invariant
                size >= 1,
                image_size.width % size == 0,
                nb == image_size.width as int / size as int,
                size * nb == image_size.width,
                by < nb,
                bx <= nb,
                blocks@.len() == by * nb + bx,
                forall|i: int|
                    0 <= i < blocks@.len() ==> blocks@[i] == (Block {
                        block_size: size,
                        origin: spec_block_origin(image_size.width, size, i),
                    }),
            decreases nb - bx,
        {
            proof {
                assert((by * nb + bx) % (nb as int) == bx && (by * nb + bx) / (nb as int)
                    == by && by * nb + bx < nb * nb) by (nonlinear_arith)
                    requires
                        0 <= bx < nb,
                        0 <= by < nb,
                ;
                assert(0 <= size * bx && size * bx <= size * nb && 0 <= size * by && size
                    * by <= size * nb) by (nonlinear_arith)
                    requires
                        0 <= bx <= nb,
                        0 <= by <= nb,
                        size >= 1,
                ;
            }
            blocks.push(
                Block { block_size: size, origin: Coords { x: size * bx, y: size * by } },
            );
            bx = bx + 1;
        }
        proof {
            assert((by + 1) * nb == by * nb + nb) by (nonlinear_arith);
        }
        by = by + 1;
    }
    proof {
        assert(by * nb == nb * nb) by (nonlinear_arith)
            requires
                by == nb,
        ;
    }
    Ok(blocks)
}

/// Tiling of a square image into non-overlapping square blocks.
pub trait IntoSquaredBlocks<I: Image>: Image {
    fn squared_blocks(&self, size: u32) -> (r: Result<
        Vec<SquaredBlock<I>>,
        SquareSizeDoesNotDivideImageSize,
    >)
        requires
            self.wf(),
            self.spec_width() == self.spec_height(),
            size >= 1,
        ensures
            match r {
                Ok(blocks) => {
                    let nb = self.spec_width() as int / size as int;
                    &&& self.spec_width() as int % size as int == 0
                    &&& blocks@.len() == nb * nb
                    &&& forall|i: int|
                        0 <= i < blocks@.len() ==> (#[trigger] blocks@[i]).wf()
                            && blocks@[i].size == size
                    &&& forall|i: int, x: int, y: int|
                        0 <= i < blocks@.len() && 0 <= x < size && 0 <= y < size
                            ==> #[trigger] blocks@[i].spec_pixel(x, y) == self.spec_pixel(
                            size * (i % nb) + x,
                            size * (i / nb) + y,
                        )
                },
                Err(e) => self.spec_width() as int % size as int != 0 && e == (
                SquareSizeDoesNotDivideImageSize(
                    Size { width: self.spec_width(), height: self.spec_height() },
                    size,
                )),
            },
    ;
}

impl<I: Image> IntoSquaredBlocks<I> for Square<I> {
    fn squared_blocks(&self, size: u32) -> (r: Result<
        Vec<SquaredBlock<I>>,
        SquareSizeDoesNotDivideImageSize,
    >) {
        let plain = create_blocks(self.get_size(), size)?;
        let ghost nb = self.spec_width() as int / size as int;
        let mut blocks: Vec<SquaredBlock<I>> = Vec::new();
        let mut k: usize = 0;
        while k < plain.len()
            invariant
                self.wf(),
                size >= 1,
                self.spec_width() as int % size as int == 0,
                nb == self.spec_width() as int / size as int,
                plain@.len() == nb * nb,
                forall|i: int|
                    0 <= i < plain@.len() ==> plain@[i] == (Block {
                        block_size: size,
                        origin: spec_block_origin(self.spec_width(), size, i),
                    }),
                k <= plain@.len(),
                blocks@.len() == k,
                forall|i: int|
                    0 <= i < k ==> (#[trigger] blocks@[i]) == (SquaredBlock {
                        image: self.as_inner_spec(),
                        size,
                        origin: plain@[i].origin,
                    }),
                forall|i: int| 0 <= i < k ==> (#[trigger] blocks@[i]).wf(),
            decreases plain@.len() - k,
        {
            let b = plain[k];
            proof {
                lemma_block_origin_fits(self.spec_width(), size, k as int);
            }
            blocks.push(SquaredBlock { image: self.as_inner(), size, origin: b.origin });
            k = k + 1;
        }
        proof {
            assert forall|i: int, x: int, y: int|
                0 <= i < blocks@.len() && 0 <= x < size && 0 <= y < size implies #[trigger]
            blocks@[i].spec_pixel(x, y) == self.spec_pixel(
                size * (i % nb) + x,
                size * (i / nb) + y,
            ) by {
                lemma_block_origin_fits(self.spec_width(), size, i);
                assert(blocks@[i].origin == spec_block_origin(self.spec_width(), size, i));
            }
        }
        Ok(blocks)
    }
}

impl<I: Image> IntoSquaredBlocks<I> for SquaredBlock<I> {
    fn squared_blocks(&self, size: u32) -> (r: Result<
        Vec<SquaredBlock<I>>,
        SquareSizeDoesNotDivideImageSize,
    >) {
        let plain = create_blocks(self.get_size(), size)?;
        let ghost nb = self.spec_width() as int / size as int;
        let mut blocks: Vec<SquaredBlock<I>> = Vec::new();
        let mut k: usize = 0;
        while k < plain.len()
            invariant
                self.wf(),
                size >= 1,
                self.spec_width() as int % size as int == 0,
                nb == self.spec_width() as int / size as int,
                plain@.len() == nb * nb,
                forall|i: int|
                    0 <= i < plain@.len() ==> plain@[i] == (Block {
                        block_size: size,
                        origin: spec_block_origin(self.size, size, i),
                    }),
                k <= plain@.len(),
                blocks@.len() == k,
                forall|i: int|
                    0 <= i < k ==> (#[trigger] blocks@[i]) == (SquaredBlock {
                        image: self.image,
                        size,
                        origin: Coords {
                            x: (plain@[i].origin.x + self.origin.x) as u32,
                            y: (plain@[i].origin.y + self.origin.y) as u32,
                        },
                    }),
                forall|i: int| 0 <= i < k ==> (#[trigger] blocks@[i]).wf(),
            decreases plain@.len() - k,
        {
            let b = plain[k];
            proof {
                lemma_block_origin_fits(self.size, size, k as int);
            }
            let origin = b.origin.add(self.origin);
            blocks.push(SquaredBlock { image: self.image.clone(), size, origin });
            k = k + 1;
        }
        proof {
            assert forall|i: int, x: int, y: int|
                0 <= i < blocks@.len() && 0 <= x < size && 0 <= y < size implies #[trigger]
            blocks@[i].spec_pixel(x, y) == self.spec_pixel(
                size * (i % nb) + x,
                size * (i / nb) + y,
            ) by {
                lemma_block_origin_fits(self.size, size, i);
                assert(plain@[i].origin == spec_block_origin(self.size, size, i));
            }
        }
        Ok(blocks)
    }
}

/// Inside a tiling of a square of side `n` into blocks of side `size`, the
/// origin of block `i` leaves room for the whole block.
proof fn lemma_block_origin_fits(n: u32, size: u32, i: int)
    requires
        size >= 1,
        n as int % size as int == 0,
        0 <= i < (n as int / size as int) * (n as int / size as int),
    ensures
        spec_block_origin(n, size, i).x + size <= n,
        spec_block_origin(n, size, i).y + size <= n,
        size * (i % (n as int / size as int)) == spec_block_origin(n, size, i).x,
        size * (i / (n as int / size as int)) == spec_block_origin(n, size, i).y,
{
    let nb = n as int / size as int;
    assert(0 <= nb) by (nonlinear_arith)
        requires
            size >= 1,
            0 <= n as int,
            nb == n as int / size as int,
    ;
    assert(nb >= 1) by (nonlinear_arith)
        requires
            0 <= i < nb * nb,
            0 <= nb,
    ;
    assert(0 <= i % nb < nb && 0 <= i / nb < nb) by (nonlinear_arith)
        requires
            0 <= i < nb * nb,
            nb >= 1,
    ;
    assert(size * (i % nb) + size <= size * nb && size * (i / nb) + size <= size * nb)
        by (nonlinear_arith)
        requires
            0 <= i % nb < nb,
            0 <= i / nb < nb,
            size >= 1,
    ;
    assert(size * nb == n) by (nonlinear_arith)
        requires
            n as int % size as int == 0,
            nb == n as int / size as int,
            size >= 1,
    ;
}

/// Tiling completeness, existence half: every pixel `(px, py)` of an `n` by
/// `n` image is seen by the tiling, namely by block
/// `(py / size) * (n / size) + (px / size)` at the in-block position
/// `(px % size, py % size)`.
pub proof fn lemma_tiling_complete(n: u32, size: u32, px: int, py: int)
    requires
        size >= 1,
        n as int % size as int == 0,
        0 <= px < n,
        0 <= py < n,
    ensures
        ({
            let nb = n as int / size as int;
            let i = (py / (size as int)) * nb + (px / (size as int));
            &&& 0 <= i < nb * nb
            &&& size * (i % nb) + (px % (size as int)) == px
            &&& size * (i / nb) + (py % (size as int)) == py
            &&& 0 <= (px % (size as int)) < size
            &&& 0 <= (py % (size as int)) < size
        }),
{
    let nb = n as int / size as int;
    let i = (py / (size as int)) * nb + (px / (size as int));
    assert(size * nb == n) by (nonlinear_arith)
        requires
            n as int % size as int == 0,
            nb == n as int / size as int,
            size >= 1,
    ;
    assert(0 <= (px / (size as int)) < nb && 0 <= (py / (size as int)) < nb && size * (px
        / (size as int)) + (px % (size as int)) == px && size * (py / (size as int)) + (py
        % (size as int)) == py && 0 <= (px % (size as int)) < size && 0 <= (py
        % (size as int)) < size) by (nonlinear_arith)
        requires
            0 <= px < n,
            0 <= py < n,
            size >= 1,
            size * nb == n,
    ;
    assert(0 <= i < nb * nb && i % nb == px / (size as int) && i / nb == py
        / (size as int)) by (nonlinear_arith)
        requires
            i == (py / (size as int)) * nb + (px / (size as int)),
            0 <= (px / (size as int)) < nb,
            0 <= (py / (size as int)) < nb,
    ;
}

/// Tiling completeness, uniqueness half: no source pixel is seen twice.  If
/// block `j` shows `(px, py)` at its in-block position `(x, y)`, then `j`,
/// `x` and `y` are exactly the ones [`lemma_tiling_complete`] names.
pub proof fn lemma_tiling_unique(n: u32, size: u32, px: int, py: int, j: int, x: int, y: int)
    requires
        size >= 1,
        n as int % size as int == 0,
        0 <= px < n,
        0 <= py < n,
        ({
            let nb = n as int / size as int;
            &&& 0 <= j < nb * nb
            &&& 0 <= x < size
            &&& 0 <= y < size
            &&& size * (j % nb) + x == px
            &&& size * (j / nb) + y == py
        }),
    ensures
        ({
            let nb = n as int / size as int;
            &&& j == (py / (size as int)) * nb + (px / (size as int))
            &&& x == px % (size as int)
            &&& y == py % (size as int)
        }),
{
    let nb = n as int / size as int;
    assert(size * nb == n && nb >= 1) by (nonlinear_arith)
        requires
            n as int % size as int == 0,
            nb == n as int / size as int,
            size >= 1,
            n >= 1,
    ;
    assert(0 <= j % nb < nb && 0 <= j / nb < nb && j == (j / nb) * nb + j % nb)
        by (nonlinear_arith)
        requires
            0 <= j < nb * nb,
            nb >= 1,
    ;
    assert(j % nb == px / (size as int) && x == px % (size as int)) by (nonlinear_arith)
        requires
            size * (j % nb) + x == px,
            0 <= x < size,
            0 <= j % nb,
            size >= 1,
    ;
    assert(j / nb == py / (size as int) && y == py % (size as int)) by (nonlinear_arith)
        requires
            size * (j / nb) + y == py,
            0 <= y < size,
            0 <= j / nb,
            size >= 1,
    ;
}

} // verus!
