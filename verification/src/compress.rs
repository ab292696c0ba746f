use vstd::prelude::*;

use crate::image::Image;

verus! {

/// The sum of the first `n` pixels of `img`, in row-major order.
pub open spec fn spec_sum_pixels<I: Image>(img: I, n: int) -> int
    decreases n,
{
    if n <= 0 {
        0
    } else {
        let k = n - 1;
        let w = img.spec_width() as int;
        spec_sum_pixels(img, k) + img.spec_pixel(k % w, k / w)
    }
}

/// The sum of the squares of the first `n` pixels of `img`.
pub open spec fn spec_sum_squares<I: Image>(img: I, n: int) -> int
    decreases n,
{
    if n <= 0 {
        0
    } else {
        let k = n - 1;
        let w = img.spec_width() as int;
        let p = img.spec_pixel(k % w, k / w) as int;
        spec_sum_squares(img, k) + p * p
    }
}

/// The sum of the products of corresponding pixels of two equally wide
/// images, over the first `n` positions.
pub open spec fn spec_sum_products<A: Image, B: Image>(a: A, b: B, n: int) -> int
    decreases n,
{
    if n <= 0 {
        0
    } else {
        let k = n - 1;
        let w = a.spec_width() as int;
        spec_sum_products(a, b, k) + a.spec_pixel(k % w, k / w) * b.spec_pixel(
            k % w,
            k / w,
        )
    }
}

/// The exact integer accumulators of the least-squares fit between a domain
/// candidate and a range block: with the pixels read as integers, the five
/// sums determine the optimal affine map.  The floating-point finish —
/// the two divisions, the clamp and the square root — is left to the
/// caller, which owns the numeric policy.
#[derive(Debug, Clone, Copy, PartialEq, Eq, Structural)]
pub struct MappingSums {
    /// The number of pixel pairs.
    pub count: u64,
    /// The sum of the domain pixels.
    pub sum_domain: u64,
    /// The sum of the range pixels.
    pub sum_range: u64,
    /// The sum of the squared domain pixels.
    pub sum_domain_sq: u64,
    /// The sum of the squared range pixels.
    pub sum_range_sq: u64,
    /// The sum of the products of paired domain and range pixels.
    pub sum_cross: u64,
}

impl MappingSums {
    /// Walks the two blocks once and accumulates the five sums exactly.
    pub fn compute<D: Image, R: Image>(domain: &D, range: &R) -> (s: MappingSums)
        requires
            domain.wf(),
            range.wf(),
            domain.spec_width() == range.spec_width(),
            domain.spec_height() == range.spec_height(),
        ensures
            s.count == domain.spec_width() * domain.spec_height(),
            s.sum_domain == spec_sum_pixels(*domain, s.count as int),
            s.sum_range == spec_sum_pixels(*range, s.count as int),
            s.sum_domain_sq == spec_sum_squares(*domain, s.count as int),
            s.sum_range_sq == spec_sum_squares(*range, s.count as int),
            s.sum_cross == spec_sum_products(*domain, *range, s.count as int),
    {
        proof {
            domain.lemma_area_fits();
        }
        let w = domain.get_width();
        let h = domain.get_height();
        let mut sum_domain: u64 = 0;
        let mut sum_range: u64 = 0;
        let mut sum_domain_sq: u64 = 0;
        let mut sum_range_sq: u64 = 0;
        let mut sum_cross: u64 = 0;
        let mut y: u32 = 0;
        while y < h
            invariant
                domain.wf(),
                range.wf(),
                w == domain.spec_width() && w == range.spec_width(),
                h == domain.spec_height() && h == range.spec_height(),
                w * h <= u32::MAX,
                y <= h,
                sum_domain == spec_sum_pixels(*domain, y * w),
                sum_range == spec_sum_pixels(*range, y * w),
                sum_domain_sq == spec_sum_squares(*domain, y * w),
                sum_range_sq == spec_sum_squares(*range, y * w),
                sum_cross == spec_sum_products(*domain, *range, y * w),
                sum_domain <= 255 * (y * w),
                sum_range <= 255 * (y * w),
                sum_domain_sq <= 65025 * (y * w),
                sum_range_sq <= 65025 * (y * w),
                sum_cross <= 65025 * (y * w),
            decreases h - y,
        {
            let mut x: u32 = 0;
            while x < w
                invariant
                    domain.wf(),
                    range.wf(),
                    w == domain.spec_width() && w == range.spec_width(),
                    h == domain.spec_height() && h == range.spec_height(),
                    w * h <= u32::MAX,
                    y < h,
                    x <= w,
                    sum_domain == spec_sum_pixels(*domain, y * w + x),
                    sum_range == spec_sum_pixels(*range, y * w + x),
                    sum_domain_sq == spec_sum_squares(*domain, y * w + x),
                    sum_range_sq == spec_sum_squares(*range, y * w + x),
                    sum_cross == spec_sum_products(*domain, *range, y * w + x),
                    sum_domain <= 255 * (y * w + x),
                    sum_range <= 255 * (y * w + x),
                    sum_domain_sq <= 65025 * (y * w + x),
                    sum_range_sq <= 65025 * (y * w + x),
                    sum_cross <= 65025 * (y * w + x),
                decreases w - x,
            {
                proof {
                    crate::image::lemma_index_in_area(
                        w as int,
                        h as int,
                        x as int,
                        y as int,
                    );
                    crate::image::lemma_row_major_index(w as int, x as int, y as int);
                }
                let pd = domain.pixel(x, y);
                let pr = range.pixel(x, y);
                proof {
                    let n = y * w + x;
                    assert(pd * pd <= 65025 && pr * pr <= 65025 && pd * pr <= 65025 && 0
                        <= pd * pd && 0 <= pr * pr && 0 <= pd * pr) by (nonlinear_arith)
                        requires
                            0 <= pd <= 255,
                            0 <= pr <= 255,
                    ;
                    assert(255 * (n + 1) == 255 * n + 255 && 65025 * (n + 1) == 65025 * n
                        + 65025) by (nonlinear_arith);
                }
                sum_domain = sum_domain + pd as u64;
                sum_range = sum_range + pr as u64;
                sum_domain_sq = sum_domain_sq + (pd as u64) * (pd as u64);
                sum_range_sq = sum_range_sq + (pr as u64) * (pr as u64);
                sum_cross = sum_cross + (pd as u64) * (pr as u64);
                x = x + 1;
            }
            proof {
                assert((y + 1) * w == y * w + w) by (nonlinear_arith);
            }
            y = y + 1;
        }
        proof {
            assert(h * w == w * h) by (nonlinear_arith);
        }
        MappingSums {
            count: (w as u64) * (h as u64),
            sum_domain,
            sum_range,
            sum_domain_sq,
            sum_range_sq,
            sum_cross,
        }
    }
}

} // verus!
