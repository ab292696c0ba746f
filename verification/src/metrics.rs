use vstd::prelude::*;

use crate::image::Image;
use crate::image::Size;

verus! {

/// The error returned when two images of different sizes are compared.
#[derive(Debug, Clone, Copy, Eq, PartialEq, Structural)]
pub struct ImageSizeMismatch(pub Size, pub Size);

/// The sum, over the first `n` pixels in row-major order, of the squared
/// difference of the two images' intensities.
pub open spec fn spec_sse_upto<A: Image, B: Image>(a: A, b: B, n: int) -> int
    decreases n,
{
    if n <= 0 {
        0
    } else {
        let k = n - 1;
        let w = a.spec_width() as int;
        let d = a.spec_pixel(k % w, k / w) - b.spec_pixel(k % w, k / w);
        spec_sse_upto(a, b, k) + d * d
    }
}

/// The sum of squared differences over all pixels of two equally sized
/// images; the numerator of the mean squared error.
pub open spec fn spec_sse<A: Image, B: Image>(a: A, b: B) -> int {
    spec_sse_upto(a, b, a.spec_width() * a.spec_height())
}

/// A partial sum of squared differences is never negative.
pub proof fn lemma_sse_nonneg<A: Image, B: Image>(a: A, b: B, n: int)
    ensures
        spec_sse_upto(a, b, n) >= 0,
    decreases n,
{
    if n > 0 {
        lemma_sse_nonneg(a, b, n - 1);
        let k = n - 1;
        let w = a.spec_width() as int;
        let d = a.spec_pixel(k % w, k / w) - b.spec_pixel(k % w, k / w);
        assert(d * d >= 0) by (nonlinear_arith);
    }
}

/// An image compared with itself has no squared error: with the mean taken
/// afterwards, `mse(A, A) == 0`.
pub proof fn lemma_sse_self<A: Image>(a: A, n: int)
    ensures
        spec_sse_upto(a, a, n) == 0,
    decreases n,
{
    if n > 0 {
        lemma_sse_self(a, n - 1);
    }
}

/// The squared error of two equally wide images is zero exactly when the
/// first `n` pixels agree.
pub proof fn lemma_sse_zero_iff_equal<A: Image, B: Image>(a: A, b: B, n: int)
    ensures
        spec_sse_upto(a, b, n) == 0 <==> forall|k: int|
            0 <= k < n ==> #[trigger] a.spec_pixel(
                k % (a.spec_width() as int),
                k / (a.spec_width() as int),
            ) == b.spec_pixel(k % (a.spec_width() as int), k / (a.spec_width() as int)),
    decreases n,
{
    if n > 0 {
        lemma_sse_zero_iff_equal(a, b, n - 1);
        lemma_sse_nonneg(a, b, n - 1);
        let k = n - 1;
        let w = a.spec_width() as int;
        let d = a.spec_pixel(k % w, k / w) - b.spec_pixel(k % w, k / w);
        assert(d * d >= 0 && (d * d == 0 <==> d == 0)) by (nonlinear_arith);
    }
}

/// The sum of squared pixel differences of two images, or a size mismatch.
/// Dividing the sum by the pixel count gives the mean squared error; the
/// division is left to the caller so that the result here is exact.
pub fn sse<A: Image, B: Image>(first: &A, second: &B) -> (r: Result<u64, ImageSizeMismatch>)
    requires
        first.wf(),
        second.wf(),
    ensures
        match r {
            Ok(v) => first.spec_width() == second.spec_width() && first.spec_height()
                == second.spec_height() && v == spec_sse(*first, *second),
            Err(e) => (first.spec_width() != second.spec_width() || first.spec_height()
                != second.spec_height()) && e == (ImageSizeMismatch(
                Size { width: first.spec_width(), height: first.spec_height() },
                Size { width: second.spec_width(), height: second.spec_height() },
            )),
        },
{
    let sa = first.get_size();
    let sb = second.get_size();
    if sa.width != sb.width || sa.height != sb.height {
        return Err(ImageSizeMismatch(sa, sb));
    }
    proof {
        first.lemma_area_fits();
    }
    let w = sa.width;
    let h = sa.height;
    let mut sum: u64 = 0;
    let mut y: u32 = 0;
    while y < h
        invariant
            first.wf(),
            second.wf(),
            w == first.spec_width() && w == second.spec_width(),
            h == first.spec_height() && h == second.spec_height(),
            w * h <= u32::MAX,
            y <= h,
            sum == spec_sse_upto(*first, *second, y * w),
            sum <= 65025 * (y * w),
        decreases h - y,
    {
        let mut x: u32 = 0;
        while x < w
            invariant
                first.wf(),
                second.wf(),
                w == first.spec_width() && w == second.spec_width(),
                h == first.spec_height() && h == second.spec_height(),
                w * h <= u32::MAX,
                y < h,
                x <= w,
                sum == spec_sse_upto(*first, *second, y * w + x),
                sum <= 65025 * (y * w + x),
            decreases w - x,
        {
            proof {
                crate::image::lemma_index_in_area(w as int, h as int, x as int, y as int);
            }
            let pa = first.pixel(x, y);
            let pb = second.pixel(x, y);
            let d: u64 = if pa >= pb {
                (pa - pb) as u64
            } else {
                (pb - pa) as u64
            };
            proof {
                let n = y * w + x;
                crate::image::lemma_row_major_index(w as int, x as int, y as int);
                let dd = first.spec_pixel(x as int, y as int) - second.spec_pixel(
                    x as int,
                    y as int,
                );
                assert(d * d == dd * dd && 0 <= d * d <= 65025) by (nonlinear_arith)
                    requires
                        0 <= pa <= 255,
                        0 <= pb <= 255,
                        d == if pa >= pb {
                            pa - pb
                        } else {
                            pb - pa
                        },
                        dd == pa - pb,
                ;
                assert(65025 * (n + 1) == 65025 * n + 65025) by (nonlinear_arith);
                assert(spec_sse_upto(*first, *second, n + 1) == spec_sse_upto(
                    *first,
                    *second,
                    n,
                ) + dd * dd);
            }
            sum = sum + d * d;
            x = x + 1;
        }
        proof {
            assert((y + 1) * w == y * w + w) by (nonlinear_arith);
        }
        y = y + 1;
    }
    proof {
        assert(h * w == w * h) by (nonlinear_arith);
    }
    Ok(sum)
}

/// The largest pixel intensity of an image, or zero for an empty image.
pub fn max_pixel<I: Image>(image: &I) -> (r: u8)
    requires
        image.wf(),
    ensures
        forall|x: int, y: int|
            0 <= x < image.spec_width() && 0 <= y < image.spec_height()
                ==> image.spec_pixel(x, y) <= r,
        r != 0 ==> exists|x: int, y: int|
            0 <= x < image.spec_width() && 0 <= y < image.spec_height()
                && image.spec_pixel(x, y) == r,
{
    let w = image.get_width();
    let h = image.get_height();
    let mut best: u8 = 0;
    let mut y: u32 = 0;
    while y < h
        invariant
            image.wf(),
            w == image.spec_width(),
            h == image.spec_height(),
            y <= h,
            forall|i: int, j: int|
                0 <= i < w && 0 <= j < y ==> image.spec_pixel(i, j) <= best,
            best != 0 ==> exists|i: int, j: int|
                0 <= i < w && 0 <= j < h && image.spec_pixel(i, j) == best,
        decreases h - y,
    {
        let mut x: u32 = 0;
        while x < w
            invariant
                image.wf(),
                w == image.spec_width(),
                h == image.spec_height(),
                y < h,
                x <= w,
                forall|i: int, j: int|
                    0 <= i < w && 0 <= j < y ==> image.spec_pixel(i, j) <= best,
                forall|i: int| 0 <= i < x ==> image.spec_pixel(i, y as int) <= best,
                best != 0 ==> exists|i: int, j: int|
                    0 <= i < w && 0 <= j < h && image.spec_pixel(i, j) == best,
            decreases w - x,
        {
            let p = image.pixel(x, y);
            if p > best {
                best = p;
            }
            x = x + 1;
        }
        y = y + 1;
    }
    best
}

} // verus!
