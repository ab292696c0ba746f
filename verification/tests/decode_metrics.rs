use fractal_image::compress::MappingSums;
use fractal_image::decompress::decompress;
use fractal_image::decompress::Options;
use fractal_image::image::FakeImage;
use fractal_image::image::gen::GenCircle;
use fractal_image::image::gen::GenSquare;
use fractal_image::image::Image;
use fractal_image::image::IntoDownscaled;
use fractal_image::image::IntoRotated;
use fractal_image::image::IntoSquaredBlocks;
use fractal_image::image::IterablePixels;
use fractal_image::image::OwnedImage;
use fractal_image::image::Size;
use fractal_image::image::Square;
use fractal_image::image::SquaredBlock;
use fractal_image::metrics::max_pixel;
use fractal_image::metrics::sse;
use fractal_image::model::Block;
use fractal_image::model::Compressed;
use fractal_image::model::Rotation;
use fractal_image::model::Saturation;
use fractal_image::model::Transformation;

#[test]
fn owned_create_random_owned_image() {
    let image = OwnedImage::random(Size::new(16, 16));
    assert_eq!(16 * 16, image.data.len());
    assert_eq!(16, image.get_width());
    assert_eq!(16, image.get_height());
}

#[test]
fn random_images_are_reproducible() {
    let a = OwnedImage::random(Size::new(32, 32));
    let b = OwnedImage::random(Size::new(32, 32));
    assert_eq!(a.data, b.data);
}

#[test]
fn default_options_run_ten_iterations() {
    let options = Options::default();
    assert_eq!(options.iterations, 10);
    assert!(!options.keep_each_iteration);
}

#[test]
fn sse_of_an_image_with_itself_is_zero() {
    let image = FakeImage::squared(8);
    assert_eq!(sse(&image, &image), Ok(0));
}

#[test]
fn sse_counts_every_squared_difference() {
    // a lone white center pixel against an all-white image: fifteen of the
    // sixteen pixels differ by 255
    let dot = GenSquare::new(4, 0);
    let white = GenSquare::new(4, 20);
    assert_eq!(sse(&dot, &white), Ok(15 * 255 * 255));
}

#[test]
fn metrics_fail_exactly_on_size_mismatch() {
    let a = FakeImage::squared(4);
    let b = FakeImage::squared(5);
    assert!(sse(&a, &b).is_err());
    assert!(sse(&b, &a).is_err());
}

#[test]
fn max_pixel_finds_the_brightest_value() {
    let image = FakeImage::new(Size::new(4, 4));
    assert_eq!(max_pixel(&image), 15);
    let square = GenSquare::new(8, 4);
    assert_eq!(max_pixel(&square), 255);
}

#[test]
fn mapping_sums_are_exact() {
    // 0  1  2  3
    // 4  5  6  7
    // 8  9  10 11
    // 12 13 14 15
    let image = FakeImage::squared(4);
    let sums = MappingSums::compute(&image, &image);
    assert_eq!(sums.count, 16);
    assert_eq!(sums.sum_domain, (0..16u64).sum::<u64>());
    assert_eq!(sums.sum_range, (0..16u64).sum::<u64>());
    assert_eq!(sums.sum_domain_sq, (0..16u64).map(|v| v * v).sum::<u64>());
    assert_eq!(sums.sum_range_sq, (0..16u64).map(|v| v * v).sum::<u64>());
    assert_eq!(sums.sum_cross, (0..16u64).map(|v| v * v).sum::<u64>());
}

/// The 256-entry table of the affine intensity map of one transformation,
/// as the decoder applies it: clamp(value * saturation + brightness, 0, 255).
fn intensity_map(t: &Transformation) -> Vec<u8> {
    let s = f64::from_bits(t.saturation.bits);
    let o = t.brightness as f64;
    (0..256u32)
        .map(|d| {
            let v: f64 = d as f64 * s + o;
            v.min(255.0).max(0.0) as u8
        })
        .collect()
}

#[test]
fn decoding_writes_the_mapped_domain_pixels() {
    // one transformation: the whole 4x4 image, downscaled to the top-left
    // 2x2 range block, with a flat map that ignores the sample
    let t = Transformation {
        range: Block {
            block_size: 2,
            origin: fractal_image::image::Coords { x: 0, y: 0 },
        },
        domain: Block {
            block_size: 4,
            origin: fractal_image::image::Coords { x: 0, y: 0 },
        },
        rotation: Rotation::By0,
        brightness: 42,
        saturation: Saturation { bits: 0.0f64.to_bits() },
    };
    let compressed = Compressed {
        size: Size::new(4, 4),
        transformations: vec![t],
    };
    let maps = vec![intensity_map(&t)];
    let decoded = decompress(&compressed, &maps, Options::default());
    assert_eq!(decoded.image.get_size(), Size::new(4, 4));
    for y in 0..2 {
        for x in 0..2 {
            assert_eq!(decoded.image.pixel(x, y), 42);
        }
    }
    assert!(decoded.iterations.is_none());

    let kept = decompress(
        &compressed,
        &maps,
        Options { iterations: 3, keep_each_iteration: true },
    );
    let snapshots = kept.iterations.expect("snapshots were requested");
    assert_eq!(snapshots.len(), 3);
    assert_eq!(snapshots[2].data, kept.image.data);
}

#[test]
fn decoding_is_deterministic() {
    let t = Transformation {
        range: Block {
            block_size: 4,
            origin: fractal_image::image::Coords { x: 4, y: 0 },
        },
        domain: Block {
            block_size: 8,
            origin: fractal_image::image::Coords { x: 0, y: 0 },
        },
        rotation: Rotation::By90,
        brightness: 10,
        saturation: Saturation { bits: 0.5f64.to_bits() },
    };
    let compressed = Compressed {
        size: Size::new(8, 8),
        transformations: vec![t],
    };
    let maps = vec![intensity_map(&t)];
    let a = decompress(&compressed, &maps, Options::default());
    let b = decompress(&compressed, &maps, Options::default());
    assert_eq!(a.image.data, b.image.data);
}

/// The floating-point finish of the least-squares fit, from the exact
/// accumulators: the optimal (saturation, brightness) and the rms error,
/// or nothing when the fit is not contractive.
fn solve(sums: &MappingSums) -> Option<(f64, i16, f64)> {
    let n = sums.count as f64;
    let domain_times_range_sum = sums.sum_cross as f64;
    let domain_squared_sum = sums.sum_domain_sq as f64;
    let range_squared_sum = sums.sum_range_sq as f64;
    let domain_sum = sums.sum_domain as f64;
    let range_sum = sums.sum_range as f64;

    let denominator = n * domain_squared_sum - domain_sum * domain_sum;
    let saturation = if denominator == 0.0 {
        0.0
    } else {
        (n * domain_times_range_sum - domain_sum * range_sum) / denominator
    };
    let brightness = (if denominator == 0.0 {
        range_sum / n
    } else {
        (range_sum - saturation * domain_sum) / n
    })
    .clamp(0.0, 255.0);
    let error = (range_squared_sum
        + saturation
            * (saturation * domain_squared_sum - 2.0 * domain_times_range_sum
                + 2.0 * brightness * domain_sum)
        + brightness * (n * brightness - 2.0 * range_sum))
        / n;
    if saturation.abs() > 1.0 {
        None
    } else {
        Some((error.sqrt(), brightness as i16, saturation))
    }
}

fn search(
    image: &Square<OwnedImage>,
    rb: &SquaredBlock<OwnedImage>,
    threshold: f64,
    out: &mut Vec<Transformation>,
) {
    let domains = image.squared_blocks(2 * rb.size).unwrap();
    for domain in &domains {
        let downscaled = domain.downscale_2x2();
        for rotation in [Rotation::By0, Rotation::By90, Rotation::By180, Rotation::By270]
        {
            let candidate = downscaled.clone().rot(rotation);
            let sums = MappingSums::compute(&candidate, rb);
            if let Some((error, brightness, saturation)) = solve(&sums) {
                if error < threshold {
                    let t = Transformation::checked(
                        Block { block_size: rb.size, origin: rb.origin },
                        Block { block_size: domain.size, origin: domain.origin },
                        rotation,
                        brightness,
                        Saturation { bits: saturation.to_bits() },
                    )
                    .expect("an accepted mapping is contractive");
                    out.push(t);
                    return;
                }
            }
        }
    }
    if rb.size > 1 {
        for child in rb.squared_blocks(rb.size / 2).unwrap() {
            search(image, &child, threshold, out);
        }
    }
}

#[test]
fn noise_round_trip_reaches_the_expected_error() {
    let image = Square::new(OwnedImage::random(Size::new(256, 256))).unwrap();

    let mut transformations: Vec<Transformation> = Vec::new();
    let initial = image.squared_blocks(128).unwrap();
    for rb in &initial {
        search(&image, rb, 100.0, &mut transformations);
    }
    assert!(!transformations.is_empty());
    for t in &transformations {
        assert!(f64::from_bits(t.saturation.bits).abs() <= 1.0);
    }

    let compressed = Compressed {
        size: Size::new(256, 256),
        transformations,
    };
    let maps: Vec<Vec<u8>> = compressed
        .transformations
        .iter()
        .map(intensity_map)
        .collect();

    let decoded = decompress(&compressed, &maps, Options::default());
    let longer = decompress(
        &compressed,
        &maps,
        Options { iterations: 20, keep_each_iteration: false },
    );
    for (a, b) in decoded.image.data.iter().zip(longer.image.data.iter()) {
        assert!((*a as i32 - *b as i32).abs() <= 2);
    }

    let area = 256u64 * 256u64;
    let mse = sse(&image, &decoded.image).unwrap() as f64 / area as f64;
    let max = max_pixel(&image).max(max_pixel(&decoded.image)) as f64;
    let psnr = 20.0 * max.log10() - 10.0 * mse.log10();

    assert!(5454.0 * 0.99 <= mse && mse <= 5454.0 * 1.01, "mse was {}", mse);
    assert!(10.76 * 0.99 <= psnr && psnr <= 10.76 * 1.01, "psnr was {}", psnr);
}

#[test]
fn pixels_come_out_in_row_major_order() {
    let image = FakeImage::new(Size::new(3, 2));
    let pixels = image.pixels();
    assert_eq!(pixels, vec![0, 1, 2, 3, 4, 5]);
    let enumerated = image.pixels_enumerated();
    assert_eq!(enumerated.len(), 6);
    assert_eq!(
        enumerated[4],
        (4, fractal_image::image::Coords { x: 1, y: 1 })
    );
}

#[test]
fn create_random_owned_image() {
    let image = OwnedImage::random(Size::new(16, 16));
    assert_eq!(16 * 16, image.data.len());
    assert_eq!(16, image.get_width());
    assert_eq!(16, image.get_height());
}

#[test]
fn circle_round_trip_stays_close_to_the_original() {
    // a centered disc, white on black, encoded with the default threshold
    let circle = GenCircle::new(64, 32);
    let raster = OwnedImage {
        size: Size::new(64, 64),
        data: circle.pixels(),
    };
    let image = Square::new(raster).unwrap();

    let mut transformations: Vec<Transformation> = Vec::new();
    for rb in &image.squared_blocks(32).unwrap() {
        search(&image, rb, 5.0, &mut transformations);
    }
    assert!(!transformations.is_empty());

    let compressed = Compressed {
        size: Size::new(64, 64),
        transformations,
    };
    let maps: Vec<Vec<u8>> = compressed
        .transformations
        .iter()
        .map(intensity_map)
        .collect();
    let decoded = decompress(&compressed, &maps, Options::default());
    assert_eq!(decoded.image.get_size(), Size::new(64, 64));

    let area = 64u64 * 64u64;
    let mse = sse(&image, &decoded.image).unwrap() as f64 / area as f64;
    let max = max_pixel(&image).max(max_pixel(&decoded.image)) as f64;
    let psnr = 20.0 * max.log10() - 10.0 * mse.log10();
    assert!(mse < 200.0, "mse was {}", mse);
    assert!(psnr > 25.0, "psnr was {}", psnr);
}
