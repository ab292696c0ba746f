use fractal_image::image::Coords;
use fractal_image::image::FakeImage;
use fractal_image::image::Image;
use fractal_image::image::IntoDownscaled;
use fractal_image::image::IntoRotated;
use fractal_image::image::IntoSquaredBlocks;
use fractal_image::image::PowerOfTwo;
use fractal_image::image::Size;
use fractal_image::image::Square;
use fractal_image::image::NotSquareError;
use fractal_image::image::power_of_two::is_power_of_two;
use fractal_image::image::iter::PixelIterator;

use std::sync::Arc;

#[test]
fn add_coords() {
    assert_eq!(
        Coords { x: 3, y: 4 }.add(Coords { x: 5, y: 6 }),
        Coords { x: 3 + 5, y: 4 + 6 }
    );
}

#[test]
fn image_add_coords() {
    assert_eq!(
        Coords { x: 3, y: 4 }.add(Coords { x: 5, y: 6 }),
        Coords { x: 3 + 5, y: 4 + 6 }
    );
}

#[test]
fn transpose_size() {
    assert_eq!(Size::new(1, 2).transpose(), Size::new(2, 1));
}

#[test]
fn block_amount_of_blocks() {
    assert_eq!(FakeImage::squared(16).squared_blocks(16).unwrap().len(), 1);
    assert_eq!(FakeImage::squared(16).squared_blocks(8).unwrap().len(), 2 * 2);
    assert_eq!(FakeImage::squared(16).squared_blocks(4).unwrap().len(), 4 * 4);
    assert_eq!(FakeImage::squared(16).squared_blocks(2).unwrap().len(), 8 * 8);
    assert_eq!(FakeImage::squared(16).squared_blocks(1).unwrap().len(), 16 * 16);
}

#[test]
fn block_block_widths() {
    let image = FakeImage::squared(4);
    let blocks = image.squared_blocks(2).unwrap();
    assert_eq!(blocks.len(), 4);
    assert_eq!(blocks[0].get_width(), 2);
    assert_eq!(blocks[1].get_width(), 2);
    assert_eq!(blocks[2].get_width(), 2);
    assert_eq!(blocks[3].get_width(), 2);
}

#[test]
fn block_block_heights() {
    let image = FakeImage::squared(4);
    let blocks = image.squared_blocks(2).unwrap();
    assert_eq!(blocks.len(), 4);
    assert_eq!(blocks[0].get_height(), 2);
    assert_eq!(blocks[1].get_height(), 2);
    assert_eq!(blocks[2].get_height(), 2);
    assert_eq!(blocks[3].get_height(), 2);
}

#[test]
fn block_relative_pixel_values() {
    let image = FakeImage::squared(4);
    let blocks = image.squared_blocks(2).unwrap();
    assert_eq!(blocks.len(), 4);

    assert_eq!(blocks[0].pixel(0, 0), image.pixel(0, 0));
    assert_eq!(blocks[0].pixel(1, 0), image.pixel(1, 0));
    assert_eq!(blocks[0].pixel(0, 1), image.pixel(0, 1));
    assert_eq!(blocks[0].pixel(1, 1), image.pixel(1, 1));

    assert_eq!(blocks[1].pixel(0, 0), image.pixel(2, 0));
    assert_eq!(blocks[1].pixel(1, 0), image.pixel(3, 0));
    assert_eq!(blocks[1].pixel(0, 1), image.pixel(2, 1));
    assert_eq!(blocks[1].pixel(1, 1), image.pixel(3, 1));

    assert_eq!(blocks[2].pixel(0, 0), image.pixel(0, 2));
    assert_eq!(blocks[2].pixel(1, 0), image.pixel(1, 2));
    assert_eq!(blocks[2].pixel(0, 1), image.pixel(0, 3));
    assert_eq!(blocks[2].pixel(1, 1), image.pixel(1, 3));

    assert_eq!(blocks[3].pixel(0, 0), image.pixel(2, 2));
    assert_eq!(blocks[3].pixel(1, 0), image.pixel(3, 2));
    assert_eq!(blocks[3].pixel(0, 1), image.pixel(2, 3));
    assert_eq!(blocks[3].pixel(1, 1), image.pixel(3, 3));
}

#[test]
fn twice() {
    // 0  1  2  3
    // 4  5  6  7
    // 8  9  10 11
    // 12 13 14 15

    let image = FakeImage::squared(4);
    let blocks = image.squared_blocks(4).unwrap();
    assert_eq!(blocks.len(), 1);
    let blocks = blocks[0].squared_blocks(2).unwrap();
    assert_eq!(blocks.len(), 4);
    assert_eq!(blocks[0].pixel(0, 0), 0);
    assert_eq!(blocks[0].pixel(1, 0), 1);
    assert_eq!(blocks[0].pixel(0, 1), 4);
    assert_eq!(blocks[0].pixel(1, 1), 5);
    assert_eq!(blocks[1].pixel(0, 0), 2);
    assert_eq!(blocks[1].pixel(1, 0), 3);
    assert_eq!(blocks[1].pixel(0, 1), 6);
    assert_eq!(blocks[1].pixel(1, 1), 7);
    assert_eq!(blocks[2].pixel(0, 0), 8);
    assert_eq!(blocks[2].pixel(1, 0), 9);
    assert_eq!(blocks[2].pixel(0, 1), 12);
    assert_eq!(blocks[2].pixel(1, 1), 13);
    assert_eq!(blocks[3].pixel(0, 0), 10);
    assert_eq!(blocks[3].pixel(1, 0), 11);
    assert_eq!(blocks[3].pixel(0, 1), 14);
    assert_eq!(blocks[3].pixel(1, 1), 15);

    let blocks = blocks[3].squared_blocks(1).unwrap();
    assert_eq!(blocks.len(), 4);
    assert_eq!(blocks[0].pixel(0, 0), 10);
    assert_eq!(blocks[1].pixel(0, 0), 11);
    assert_eq!(blocks[2].pixel(0, 0), 14);
    assert_eq!(blocks[3].pixel(0, 0), 15);
}

#[test]
fn flatten() {
    //  0  1  2  3  4  5  6  7
    //  8  9 10 11 12 13 14 15
    // 16 17 18 19 20 21 22 23
    // 24 25 26 27 28 29 30 31
    // 32 33 34 35 36 37 38 39
    // 40 41 42 43 44 45 46 47
    // 48 49 50 51 52 53 54 55
    // 56 57 58 59 60 61 62 63

    let image = FakeImage::squared(8);
    let blocks = image.squared_blocks(4).unwrap();
    let inner_blocks = blocks[1].squared_blocks(2).unwrap();
    let third_block = &inner_blocks[2];

    assert_eq!(third_block.size, 2);
    assert_eq!(third_block.pixel(0, 0), 20);
    assert_eq!(third_block.pixel(1, 0), 21);
    assert_eq!(third_block.pixel(0, 1), 28);
    assert_eq!(third_block.pixel(1, 1), 29);
}

#[test]
fn downscale_downscaled_size() {
    let image = FakeImage::squared(16).downscale_2x2();
    assert_eq!(image.get_width(), 8);
    assert_eq!(image.get_height(), 8);
}

#[test]
fn downscale_groups_2x2_pixels_of_original_image() {
    // Original image
    // 0  1  2  3
    // 4  5  6  7
    // 8  9  10 11
    // 12 13 14 15

    let image = FakeImage::squared(4).downscale_2x2();
    assert_eq!(image.pixel(0, 0), (1 + 4 + 5) / 4);
    assert_eq!(image.pixel(1, 0), (2 + 3 + 6 + 7) / 4);
    assert_eq!(image.pixel(0, 1), (8 + 9 + 12 + 13) / 4);
    assert_eq!(image.pixel(1, 1), (10 + 11 + 14 + 15) / 4);
}

#[test]
fn quadtree_downscaled_size() {
    let image = FakeImage::squared(16);
    let scaled = image.downscale_2x2();
    assert_eq!(scaled.get_width(), 8);
    assert_eq!(scaled.get_height(), 8);
}

#[test]
fn quadtree_groups_2x2_pixels_of_original_image() {
    let image = FakeImage::squared(4);
    let scaled = image.downscale_2x2();
    assert_eq!(scaled.pixel(0, 0), (1 + 4 + 5) / 4);
    assert_eq!(scaled.pixel(1, 0), (2 + 3 + 6 + 7) / 4);
    assert_eq!(scaled.pixel(0, 1), (8 + 9 + 12 + 13) / 4);
    assert_eq!(scaled.pixel(1, 1), (10 + 11 + 14 + 15) / 4);
}

#[test]
fn quadtree_amount_of_blocks() {
    assert_eq!(FakeImage::squared(16).squared_blocks(16).unwrap().len(), 1);
    assert_eq!(FakeImage::squared(16).squared_blocks(8).unwrap().len(), 2 * 2);
    assert_eq!(FakeImage::squared(16).squared_blocks(4).unwrap().len(), 4 * 4);
    assert_eq!(FakeImage::squared(16).squared_blocks(2).unwrap().len(), 8 * 8);
    assert_eq!(FakeImage::squared(16).squared_blocks(1).unwrap().len(), 16 * 16);
}

#[test]
fn quadtree_block_widths() {
    let image = FakeImage::squared(4);
    let blocks = image.squared_blocks(2).unwrap();
    assert_eq!(blocks.len(), 4);
    assert_eq!(blocks[0].get_width(), 2);
    assert_eq!(blocks[1].get_width(), 2);
    assert_eq!(blocks[2].get_width(), 2);
    assert_eq!(blocks[3].get_width(), 2);
}

#[test]
fn quadtree_block_heights() {
    let image = FakeImage::squared(4);
    let blocks = image.squared_blocks(2).unwrap();
    assert_eq!(blocks.len(), 4);
    assert_eq!(blocks[0].get_height(), 2);
    assert_eq!(blocks[1].get_height(), 2);
    assert_eq!(blocks[2].get_height(), 2);
    assert_eq!(blocks[3].get_height(), 2);
}

#[test]
fn quadtree_relative_pixel_values() {
    let image = FakeImage::squared(4);
    let blocks = image.squared_blocks(2).unwrap();
    assert_eq!(blocks.len(), 4);

    assert_eq!(blocks[0].pixel(0, 0), image.pixel(0, 0));
    assert_eq!(blocks[0].pixel(1, 0), image.pixel(1, 0));
    assert_eq!(blocks[0].pixel(0, 1), image.pixel(0, 1));
    assert_eq!(blocks[0].pixel(1, 1), image.pixel(1, 1));

    assert_eq!(blocks[1].pixel(0, 0), image.pixel(2, 0));
    assert_eq!(blocks[1].pixel(1, 0), image.pixel(3, 0));
    assert_eq!(blocks[1].pixel(0, 1), image.pixel(2, 1));
    assert_eq!(blocks[1].pixel(1, 1), image.pixel(3, 1));

    assert_eq!(blocks[2].pixel(0, 0), image.pixel(0, 2));
    assert_eq!(blocks[2].pixel(1, 0), image.pixel(1, 2));
    assert_eq!(blocks[2].pixel(0, 1), image.pixel(0, 3));
    assert_eq!(blocks[2].pixel(1, 1), image.pixel(1, 3));

    assert_eq!(blocks[3].pixel(0, 0), image.pixel(2, 2));
    assert_eq!(blocks[3].pixel(1, 0), image.pixel(3, 2));
    assert_eq!(blocks[3].pixel(0, 1), image.pixel(2, 3));
    assert_eq!(blocks[3].pixel(1, 1), image.pixel(3, 3));
}

#[test]
fn test_new() {
    let img = FakeImage::new(Size::new(10, 20));
    assert_eq!(img.get_size(), Size::new(10, 20));
}

#[test]
fn test_pixel() {
    let img = FakeImage::new(Size::new(10, 10));
    assert_eq!(img.pixel(0, 0), 0);
    assert_eq!(img.pixel(5, 5), (5 * 10 + 5) as u8);
}

#[test]
fn test_squared() {
    let size = 10;
    let img = FakeImage::squared(size);
    assert_eq!(img.get_size(), Size::new(size, size));
}

#[test]
fn test_is_power_of_two() {
    assert!(is_power_of_two(1));
    assert!(is_power_of_two(2));
    assert!(!is_power_of_two(3));
    assert!(is_power_of_two(4));
    assert!(!is_power_of_two(5));
    assert!(is_power_of_two(8));
    assert!(is_power_of_two(16));
    assert!(is_power_of_two(32));
}

#[test]
fn test_power_of_two_success() {
    assert!(PowerOfTwo::new(FakeImage::new(Size::new(4, 4))).is_ok());
}

#[test]
fn test_power_of_two_fail() {
    assert!(PowerOfTwo::new(FakeImage::new(Size::new(3, 4))).is_err());
    assert!(PowerOfTwo::new(FakeImage::new(Size::new(4, 3))).is_err());
    assert!(PowerOfTwo::new(FakeImage::new(Size::new(3, 3))).is_err());
}

#[test]
fn rotate_rotate_squared_by_0() {
    // 0 1
    // 2 3

    let image = FakeImage::squared(2);
    let image = image.rot_0();
    assert_eq!(image.get_size(), Size::new(2, 2));
    assert_eq!(image.pixel(0, 0), 0);
    assert_eq!(image.pixel(1, 0), 1);
    assert_eq!(image.pixel(0, 1), 2);
    assert_eq!(image.pixel(1, 1), 3);
}

#[test]
fn rotate_rotate_squared_by_90() {
    // 0 1
    // 2 3

    // 2 0
    // 3 1

    let image = FakeImage::squared(2);
    let image = image.rot_90();
    assert_eq!(image.get_size(), Size::new(2, 2));
    assert_eq!(image.pixel(0, 0), 2);
    assert_eq!(image.pixel(1, 0), 0);
    assert_eq!(image.pixel(0, 1), 3);
    assert_eq!(image.pixel(1, 1), 1);
}

#[test]
fn rotate_rotate_squared_by_180() {
    // 0 1
    // 2 3

    // 3 2
    // 1 0

    let image = FakeImage::squared(2);
    let image = image.rot_180();
    assert_eq!(image.get_size(), Size::new(2, 2));
    assert_eq!(image.pixel(0, 0), 3);
    assert_eq!(image.pixel(1, 0), 2);
    assert_eq!(image.pixel(0, 1), 1);
    assert_eq!(image.pixel(1, 1), 0);
}

#[test]
fn rotate_rotate_squared_by_270() {
    // 0 1
    // 2 3

    // 1 3
    // 0 2

    let image = FakeImage::squared(2);
    let image = image.rot_270();
    assert_eq!(image.get_size(), Size::new(2, 2));
    assert_eq!(image.pixel(0, 0), 1);
    assert_eq!(image.pixel(1, 0), 3);
    assert_eq!(image.pixel(0, 1), 0);
    assert_eq!(image.pixel(1, 1), 2);
}

#[test]
fn rotate_3x2_by_0() {
    // Original Image layout:
    // 0 1 2
    // 3 4 5

    let image = FakeImage::new(Size::new(3, 2));
    let image = image.rot_0();
    assert_eq!(image.get_size(), Size::new(3, 2));
    assert_eq!(image.pixel(0, 0), 0);
    assert_eq!(image.pixel(1, 0), 1);
    assert_eq!(image.pixel(2, 0), 2);
    assert_eq!(image.pixel(0, 1), 3);
    assert_eq!(image.pixel(1, 1), 4);
    assert_eq!(image.pixel(2, 1), 5);
}

#[test]
fn rotate_3x2_by_90() {
    // Original Image layout:
    // 0 1 2
    // 3 4 5
    //
    // After rotation by 90:
    // 3 0
    // 4 1
    // 5 2

    let image = FakeImage::new(Size::new(3, 2));
    let image = image.rot_90();
    assert_eq!(image.get_size(), Size::new(2, 3));
    assert_eq!(image.pixel(0, 0), 3);
    assert_eq!(image.pixel(1, 0), 0);
    assert_eq!(image.pixel(0, 1), 4);
    assert_eq!(image.pixel(1, 1), 1);
    assert_eq!(image.pixel(0, 2), 5);
    assert_eq!(image.pixel(1, 2), 2);
}

#[test]
fn rotate_3x2_by_180() {
    // Original Image layout:
    // 0 1 2
    // 3 4 5
    //
    // After rotation by 180:
    // 5 4 3
    // 2 1 0

    let image = FakeImage::new(Size::new(3, 2));
    let image = image.rot_180();
    assert_eq!(image.get_size(), Size::new(3, 2));
    assert_eq!(image.pixel(0, 0), 5);
    assert_eq!(image.pixel(1, 0), 4);
    assert_eq!(image.pixel(2, 0), 3);
    assert_eq!(image.pixel(0, 1), 2);
    assert_eq!(image.pixel(1, 1), 1);
    assert_eq!(image.pixel(2, 1), 0);
}

#[test]
fn rotate_3x2_by_270() {
    // Original Image layout:
    // 0 1 2
    // 3 4 5
    //
    // After rotation by 270:
    // 2 5
    // 1 4
    // 0 3

    let image = FakeImage::new(Size::new(3, 2));
    let image = image.rot_270();
    assert_eq!(image.get_size(), Size::new(2, 3));
    assert_eq!(image.pixel(0, 0), 2);
    assert_eq!(image.pixel(1, 0), 5);
    assert_eq!(image.pixel(0, 1), 1);
    assert_eq!(image.pixel(1, 1), 4);
    assert_eq!(image.pixel(0, 2), 0);
    assert_eq!(image.pixel(1, 2), 3);
}

#[test]
fn squared_image_test_success() {
    let image = FakeImage::new(Size::new(100, 100));
    let squared = Square::new(image);
    assert!(squared.is_ok());
}

#[test]
fn squared_image_test_failure() {
    let image = FakeImage::new(Size::new(100, 101));
    let squared = Square::new(image);
    assert!(squared.is_err());
    assert_eq!(
        squared.unwrap_err(),
        NotSquareError(Arc::new(FakeImage::new(Size::new(100, 101))))
    );
}

#[test]
fn rotating_a_square_four_quarter_turns_is_identity() {
    let image = FakeImage::squared(4);
    let turned = FakeImage::squared(4).rot_90().rot_90().rot_90().rot_90();
    for y in 0..4 {
        for x in 0..4 {
            assert_eq!(turned.pixel(x, y), image.pixel(x, y));
        }
    }
}

#[test]
fn tiling_shows_every_pixel_exactly_once() {
    let image = FakeImage::squared(8);
    let blocks = image.squared_blocks(2).unwrap();
    let mut seen = vec![0u32; 64];
    for (i, b) in blocks.iter().enumerate() {
        let i = i as u32;
        let nb = 4;
        for y in 0..2 {
            for x in 0..2 {
                let px = 2 * (i % nb) + x;
                let py = 2 * (i / nb) + y;
                assert_eq!(b.pixel(x, y), image.pixel(px, py));
                seen[(py * 8 + px) as usize] += 1;
            }
        }
    }
    for count in seen {
        assert_eq!(count, 1);
    }
}

#[test]
fn downscaled_size() {
    let image = FakeImage::squared(16).downscale_2x2();
    assert_eq!(image.get_width(), 8);
    assert_eq!(image.get_height(), 8);
}

#[test]
fn groups_2x2_pixels_of_original_image() {
    // Original image
    // 0  1  2  3
    // 4  5  6  7
    // 8  9  10 11
    // 12 13 14 15

    let image = FakeImage::squared(4).downscale_2x2();
    assert_eq!(image.pixel(0, 0), (1 + 4 + 5) / 4);
    assert_eq!(image.pixel(1, 0), (2 + 3 + 6 + 7) / 4);
    assert_eq!(image.pixel(0, 1), (8 + 9 + 12 + 13) / 4);
    assert_eq!(image.pixel(1, 1), (10 + 11 + 14 + 15) / 4);
}

#[test]
fn rotate_squared_by_0() {
    // 0 1
    // 2 3

    let image = FakeImage::squared(2);
    let image = image.rot_0();
    assert_eq!(image.get_size(), Size::new(2, 2));
    assert_eq!(image.pixel(0, 0), 0);
    assert_eq!(image.pixel(1, 0), 1);
    assert_eq!(image.pixel(0, 1), 2);
    assert_eq!(image.pixel(1, 1), 3);
}

#[test]
fn rotate_squared_by_90() {
    // 0 1
    // 2 3

    // 2 0
    // 3 1

    let image = FakeImage::squared(2);
    let image = image.rot_90();
    assert_eq!(image.get_size(), Size::new(2, 2));
    assert_eq!(image.pixel(0, 0), 2);
    assert_eq!(image.pixel(1, 0), 0);
    assert_eq!(image.pixel(0, 1), 3);
    assert_eq!(image.pixel(1, 1), 1);
}

#[test]
fn rotate_squared_by_180() {
    // 0 1
    // 2 3

    // 3 2
    // 1 0

    let image = FakeImage::squared(2);
    let image = image.rot_180();
    assert_eq!(image.get_size(), Size::new(2, 2));
    assert_eq!(image.pixel(0, 0), 3);
    assert_eq!(image.pixel(1, 0), 2);
    assert_eq!(image.pixel(0, 1), 1);
    assert_eq!(image.pixel(1, 1), 0);
}

#[test]
fn rotate_squared_by_270() {
    // 0 1
    // 2 3

    // 1 3
    // 0 2

    let image = FakeImage::squared(2);
    let image = image.rot_270();
    assert_eq!(image.get_size(), Size::new(2, 2));
    assert_eq!(image.pixel(0, 0), 1);
    assert_eq!(image.pixel(1, 0), 3);
    assert_eq!(image.pixel(0, 1), 0);
    assert_eq!(image.pixel(1, 1), 2);
}

#[test]
fn pixel_iterator_walks_row_major() {
    let image = FakeImage::new(Size::new(3, 2));
    let mut iter = PixelIterator::new(&image);
    let mut seen = Vec::new();
    while let Some((pixel, coords)) = iter.next() {
        seen.push((pixel, coords));
    }
    assert_eq!(
        seen,
        vec![
            (0, Coords { x: 0, y: 0 }),
            (1, Coords { x: 1, y: 0 }),
            (2, Coords { x: 2, y: 0 }),
            (3, Coords { x: 0, y: 1 }),
            (4, Coords { x: 1, y: 1 }),
            (5, Coords { x: 2, y: 1 }),
        ]
    );
}
