use vstd::prelude::*;

use std::sync::Arc;

use crate::image::block::SquaredBlock;
use crate::image::downscale::IntoDownscaled;
use crate::image::owned::OwnedImage;
use crate::image::rotate::spec_rotated_source;
use crate::image::rotate::IntoRotated;
use crate::image::Image;
use crate::image::MutableImage;
use crate::model::Compressed;
use crate::model::Transformation;

verus! {

/// How a decode runs: the number of fixed-point iterations, and whether a
/// snapshot of every iteration is kept.
#[derive(Debug, Copy, Clone, PartialEq, Eq, Structural)]
pub struct Options {
    pub iterations: u8,
    pub keep_each_iteration: bool,
}

impl Default for Options {
    fn default() -> (r: Options)
        ensures
            r == (Options { iterations: 10, keep_each_iteration: false }),
    {
        Options { iterations: 10, keep_each_iteration: false }
    }
}

/// The result of a decode: the final raster and, on request, the raster
/// after each iteration.
pub struct Decompressed {
    pub image: OwnedImage,
    pub iterations: Option<Vec<OwnedImage>>,
}

/// Two rasters with the same dimensions and the same bytes.
pub open spec fn spec_same_image(a: OwnedImage, b: OwnedImage) -> bool {
    a.size == b.size && a.data@ == b.data@
}

/// The pixel that a transformation writes at offset `(rx, ry)` of its range
/// block: the 2-by-2 box filter of the domain block of `prev`, read through
/// the transformation's rotation.  The intensity map applied afterwards is
/// the caller's.
pub open spec fn spec_domain_sample(
    prev: OwnedImage,
    t: Transformation,
    rx: int,
    ry: int,
) -> u8 {
    let r = t.range.block_size as int;
    let sxy = spec_rotated_source(t.rotation, r, r, rx, ry);
    let bx = t.domain.origin.x + 2 * sxy.0;
    let by = t.domain.origin.y + 2 * sxy.1;
    ((prev.spec_pixel(bx, by) + prev.spec_pixel(bx + 1, by) + prev.spec_pixel(
        bx,
        by + 1,
    ) + prev.spec_pixel(bx + 1, by + 1)) / 4) as u8
}

/// The value of pixel `(x, y)` after one decoding pass over `prev`: the last
/// transformation whose range block covers the pixel wins; a pixel no range
/// block covers keeps its previous value.  `maps` holds, for each
/// transformation, the 256-entry table of its affine intensity map.
pub open spec fn spec_pass_pixel(
    prev: OwnedImage,
    ts: Seq<Transformation>,
    maps: Seq<Vec<u8>>,
    x: int,
    y: int,
) -> u8
    decreases ts.len(),
{
    if ts.len() == 0 {
        prev.spec_pixel(x, y)
    } else {
        let t = ts.last();
        if t.range.spec_covers(x, y) {
            maps.last()@[spec_domain_sample(
                prev,
                t,
                x - t.range.origin.x,
                y - t.range.origin.y,
            ) as int]
        } else {
            spec_pass_pixel(prev, ts.drop_last(), maps.drop_last(), x, y)
        }
    }
}

/// Whether `next` is the raster that one full decoding pass over `prev`
/// produces.
pub open spec fn spec_is_pass(
    prev: OwnedImage,
    ts: Seq<Transformation>,
    maps: Seq<Vec<u8>>,
    next: OwnedImage,
) -> bool {
    &&& next.wf()
    &&& next.size == prev.size
    &&& forall|x: int, y: int|
        0 <= x < prev.spec_width() && 0 <= y < prev.spec_height()
            ==> #[trigger] next.spec_pixel(x, y) == spec_pass_pixel(prev, ts, maps, x, y)
}

/// Whether `r` is a decode of `c` under `options` that started from the
/// seed raster `seed`: the final image arises from `seed` by the requested
/// number of passes, and the kept per-iteration snapshots, when requested,
/// are the intermediate rasters of that same run.
pub open spec fn spec_decoded_from(
    seed: OwnedImage,
    c: Compressed,
    maps: Seq<Vec<u8>>,
    options: Options,
    r: Decompressed,
) -> bool {
    &&& seed.wf()
    &&& seed.size == c.size
    &&& spec_decode_reaches(seed, c.transformations@, maps, options.iterations as int, r.image)
    &&& match r.iterations {
        Some(v) => options.keep_each_iteration && v@.len() == options.iterations as int
            && forall|i: int|
            0 <= i < v@.len() ==> spec_decode_reaches(
                seed,
                c.transformations@,
                maps,
                i + 1,
                #[trigger] v@[i],
            ),
        None => !options.keep_each_iteration,
    }
}

/// Whether `out` is reachable from `seed` by `n` decoding passes.
pub open spec fn spec_decode_reaches(
    seed: OwnedImage,
    ts: Seq<Transformation>,
    maps: Seq<Vec<u8>>,
    n: int,
    out: OwnedImage,
) -> bool
    decreases n,
{
    if n <= 0 {
        spec_same_image(out, seed)
    } else {
        exists|mid: OwnedImage|
            spec_decode_reaches(seed, ts, maps, n - 1, mid) && #[trigger] spec_is_pass(
                mid,
                ts,
                maps,
                out,
            )
    }
}

/// Reachability transfers to a raster with the same bytes.
proof fn lemma_reaches_same_image(
    seed: OwnedImage,
    ts: Seq<Transformation>,
    maps: Seq<Vec<u8>>,
    n: int,
    a: OwnedImage,
    b: OwnedImage,
)
    requires
        spec_decode_reaches(seed, ts, maps, n, a),
        spec_same_image(a, b),
        b.wf(),
    ensures
        spec_decode_reaches(seed, ts, maps, n, b),
{
    if n <= 0 {
    } else {
        let mid = choose|mid: OwnedImage|
            spec_decode_reaches(seed, ts, maps, n - 1, mid) && #[trigger] spec_is_pass(
                mid,
                ts,
                maps,
                a,
            );
        assert forall|x: int, y: int|
            0 <= x < mid.spec_width() && 0 <= y < mid.spec_height() implies #[trigger]
        b.spec_pixel(x, y) == spec_pass_pixel(mid, ts, maps, x, y) by {
            assert(a.spec_pixel(x, y) == spec_pass_pixel(mid, ts, maps, x, y));
            assert(b.spec_pixel(x, y) == a.spec_pixel(x, y));
        }
        assert(spec_is_pass(mid, ts, maps, b));
    }
}

/// Applies one transformation: writes the mapped domain samples of `prev`
/// over the transformation's range block in `image`, pixel by pixel in
/// row-major order.
fn apply_transformation(
    prev: &Arc<OwnedImage>,
    image: &mut OwnedImage,
    t: &Transformation,
    map: &Vec<u8>,
)
    requires
        prev.wf(),
        old(image).wf(),
        old(image).size == (**prev).size,
        t.spec_fits_image((**prev).size),
        map@.len() == 256,
    ensures
        final(image).wf(),
        final(image).size == old(image).size,
        forall|x: int, y: int|
            0 <= x < prev.spec_width() && 0 <= y < prev.spec_height()
                ==> #[trigger] final(image).spec_pixel(x, y) == if t.range.spec_covers(
                x,
                y,
            ) {
                map@[spec_domain_sample(
                    **prev,
                    *t,
                    x - t.range.origin.x,
                    y - t.range.origin.y,
                ) as int]
            } else {
                old(image).spec_pixel(x, y)
            },
{
    let block = SquaredBlock {
        image: prev.clone(),
        size: t.domain.block_size,
        origin: t.domain.origin,
    };
    let source = block.downscale_2x2().rot(t.rotation);
    let rbs = t.range.block_size;
    let ox = t.range.origin.x;
    let oy = t.range.origin.y;
    let mut ry: u32 = 0;
    while ry < rbs
        invariant
            prev.wf(),
            image.wf(),
            image.size == old(image).size,
            old(image).size == (**prev).size,
            t.spec_fits_image((**prev).size),
            map@.len() == 256,
            rbs == t.range.block_size,
            ox == t.range.origin.x,
            oy == t.range.origin.y,
            source.wf(),
            source.spec_width() == rbs,
            source.spec_height() == rbs,
            forall|rx: int, ry2: int|
                0 <= rx < rbs && 0 <= ry2 < rbs ==> #[trigger] source.spec_pixel(rx, ry2)
                    == spec_domain_sample(**prev, *t, rx, ry2),
            ry <= rbs,
            forall|x: int, y: int|
                0 <= x < prev.spec_width() && 0 <= y < prev.spec_height()
                    ==> #[trigger] image.spec_pixel(x, y) == if t.range.spec_covers(x, y)
                    && y - oy < ry {
                    map@[spec_domain_sample(
                        **prev,
                        *t,
                        x - t.range.origin.x,
                        y - t.range.origin.y,
                    ) as int]
                } else {
                    old(image).spec_pixel(x, y)
                },
        decreases rbs - ry,
    {
        let mut rx: u32 = 0;
        while rx < rbs
            invariant
                prev.wf(),
                image.wf(),
                image.size == old(image).size,
                old(image).size == prev.size,
                t.spec_fits_image(prev.size),
                map@.len() == 256,
                rbs == t.range.block_size,
                ox == t.range.origin.x,
                oy == t.range.origin.y,
                source.wf(),
                source.spec_width() == rbs,
                source.spec_height() == rbs,
                forall|rx2: int, ry2: int|
                    0 <= rx2 < rbs && 0 <= ry2 < rbs ==> #[trigger] source.spec_pixel(
                        rx2,
                        ry2,
                    ) == spec_domain_sample(**prev, *t, rx2, ry2),
                ry < rbs,
                rx <= rbs,
                forall|x: int, y: int|
                    0 <= x < prev.spec_width() && 0 <= y < prev.spec_height()
                        ==> #[trigger] image.spec_pixel(x, y) == if t.range.spec_covers(
                        x,
                        y,
                    ) && (y - oy < ry || (y - oy == ry && x - ox < rx)) {
                        map@[spec_domain_sample(
                            **prev,
                            *t,
                            x - t.range.origin.x,
                            y - t.range.origin.y,
                        ) as int]
                    } else {
                        old(image).spec_pixel(x, y)
                    },
            decreases rbs - rx,
        {
            let d = source.pixel(rx, ry);
            let v = map[d as usize];
            image.set_pixel(ox + rx, oy + ry, v);
            rx = rx + 1;
        }
        ry = ry + 1;
    }
    proof {
        assert forall|x: int, y: int|
            0 <= x < prev.spec_width() && 0 <= y < prev.spec_height() implies #[trigger]
        image.spec_pixel(x, y) == if t.range.spec_covers(x, y) {
            map@[spec_domain_sample(
                **prev,
                *t,
                x - t.range.origin.x,
                y - t.range.origin.y,
            ) as int]
        } else {
            old(image).spec_pixel(x, y)
        } by {
            assert(t.range.spec_covers(x, y) ==> y - oy < rbs);
        }
    }
}

/// Reconstructs a raster from a compressed model by fixed-point iteration:
/// a pseudo-random raster seeded from the pixel count is refined by
/// `options.iterations` decoding passes.  `pixel_maps` holds, for each
/// transformation in order, the 256-entry table of its affine intensity map
/// `clamp(saturation * value + brightness, 0, 255)`; the table form keeps
/// this function exact while the caller owns the floating-point policy.
pub fn decompress(
    compressed: &Compressed,
    pixel_maps: &Vec<Vec<u8>>,
    options: Options,
) -> (r: Decompressed)
    requires
        compressed.size.spec_area() <= u32::MAX,
        pixel_maps@.len() == compressed.transformations@.len(),
        forall|i: int|
            0 <= i < pixel_maps@.len() ==> (#[trigger] pixel_maps@[i])@.len() == 256,
        forall|i: int|
            0 <= i < compressed.transformations@.len() ==> (
            #[trigger] compressed.transformations@[i]).spec_fits_image(compressed.size),
    ensures
        r.image.wf(),
        r.image.size == compressed.size,
        exists|seed: OwnedImage|
            #[trigger] spec_decoded_from(seed, *compressed, pixel_maps@, options, r),
{
    let mut image = OwnedImage::random(compressed.size);
    let ghost seed = image;
    let ghost ts = compressed.transformations@;
    let ghost maps = pixel_maps@;
    let mut snapshots: Vec<OwnedImage> = Vec::new();
    let mut it: u8 = 0;
    while it < options.iterations
        invariant
            compressed.size.spec_area() <= u32::MAX,
            maps == pixel_maps@,
            ts == compressed.transformations@,
            maps.len() == ts.len(),
            forall|i: int| 0 <= i < maps.len() ==> (#[trigger] maps[i])@.len() == 256,
            forall|i: int|
                0 <= i < ts.len() ==> (#[trigger] ts[i]).spec_fits_image(compressed.size),
            image.wf(),
            image.size == compressed.size,
            seed.wf(),
            seed.size == compressed.size,
            it <= options.iterations,
            spec_decode_reaches(seed, ts, maps, it as int, image),
            snapshots@.len() == if options.keep_each_iteration {
                it as int
            } else {
                0
            },
            forall|i: int|
                0 <= i < snapshots@.len() ==> spec_decode_reaches(
                    seed,
                    ts,
                    maps,
                    i + 1,
                    #[trigger] snapshots@[i],
                ),
        decreases options.iterations - it,
    {
        let previous = image.duplicate();
        let ghost before_pass = image;
        let prev_arc = Arc::new(previous);
        let mut k: usize = 0;
        while k < compressed.transformations.len()
            invariant
                maps == pixel_maps@,
                ts == compressed.transformations@,
                maps.len() == ts.len(),
                forall|i: int| 0 <= i < maps.len() ==> (#[trigger] maps[i])@.len() == 256,
                forall|i: int|
                    0 <= i < ts.len() ==> (#[trigger] ts[i]).spec_fits_image(
                        compressed.size,
                    ),
                k <= ts.len(),
                prev_arc.wf(),
                (*prev_arc).size == compressed.size,
                spec_same_image(*prev_arc, before_pass),
                image.wf(),
                image.size == compressed.size,
                forall|x: int, y: int|
                    0 <= x < compressed.size.width && 0 <= y < compressed.size.height
                        ==> #[trigger] image.spec_pixel(x, y) == spec_pass_pixel(
                        *prev_arc,
                        ts.take(k as int),
                        maps.take(k as int),
                        x,
                        y,
                    ),
            decreases ts.len() - k,
        {
            let t = &compressed.transformations[k];
            let map = &pixel_maps[k];
            let ghost before = image;
            apply_transformation(&prev_arc, &mut image, t, map);
            proof {
                let ki = k as int;
                assert(ts.take(ki + 1).drop_last() =~= ts.take(ki));
                assert(maps.take(ki + 1).drop_last() =~= maps.take(ki));
                assert(ts.take(ki + 1).last() == ts[ki]);
                assert(maps.take(ki + 1).last() == maps[ki]);
                assert forall|x: int, y: int|
                    0 <= x < compressed.size.width && 0 <= y < compressed.size.height
                        implies #[trigger] image.spec_pixel(x, y) == spec_pass_pixel(
                    *prev_arc,
                    ts.take(ki + 1),
                    maps.take(ki + 1),
                    x,
                    y,
                ) by {
                    assert(image.spec_pixel(x, y) == if ts[ki].range.spec_covers(x, y) {
                        maps[ki]@[spec_domain_sample(
                            *prev_arc,
                            ts[ki],
                            x - ts[ki].range.origin.x,
                            y - ts[ki].range.origin.y,
                        ) as int]
                    } else {
                        before.spec_pixel(x, y)
                    });
                }
            }
            k = k + 1;
        }
        proof {
            let ghost prev_value = *prev_arc;
            assert(ts.take(ts.len() as int) =~= ts);
            assert(maps.take(maps.len() as int) =~= maps);
            assert(spec_is_pass(prev_value, ts, maps, image));
            lemma_reaches_same_image(seed, ts, maps, it as int, before_pass, prev_value);
            assert(spec_decode_reaches(seed, ts, maps, it as int + 1, image));
        }
        if options.keep_each_iteration {
            let snap = image.duplicate();
            proof {
                lemma_reaches_same_image(seed, ts, maps, it as int + 1, image, snap);
            }
            snapshots.push(snap);
        }
        it = it + 1;
    }
    let iterations = if options.keep_each_iteration {
        Some(snapshots)
    } else {
        None
    };
    let r = Decompressed { image, iterations };
    proof {
        assert(spec_decoded_from(seed, *compressed, pixel_maps@, options, r));
    }
    r
}

} // verus!
