use drm_grabber::downscale::fast_downscale;
use drm_grabber::rgb_image::RgbImage;
use drm_grabber::xtiled::{
    dump_intel_xtiled_xr30_decimated_to_image, xtiled_fits, xtiled_length_words,
};

fn counting_image(width: u32, height: u32) -> RgbImage {
    let samples: Vec<u8> = (0..width * height * 3).map(|i| (i * 7 % 251) as u8).collect();
    RgbImage::from_raw(width, height, samples).unwrap()
}

#[test]
fn images_need_three_samples_for_each_pixel() {
    assert!(RgbImage::from_raw(2, 2, vec![0; 11]).is_none());
    let img = RgbImage::from_raw(2, 2, (0..14).collect()).unwrap();
    assert_eq!(img.dimensions(), (2, 2));
    assert_eq!(*img.as_raw(), (0..14).collect::<Vec<u8>>());
    assert!(RgbImage::from_raw(0, 5, vec![]).is_some());
}

#[test]
fn downscaling_keeps_the_top_left_pixels() {
    let img = RgbImage::from_raw(4, 4, (0..48).collect()).unwrap();
    let small = fast_downscale(&img, 2);
    assert_eq!(small.dimensions(), (2, 2));
    assert_eq!(*small.as_raw(), vec![0, 1, 2, 6, 7, 8, 24, 25, 26, 30, 31, 32]);
}

#[test]
fn downscaling_wide_rows_matches_the_grid() {
    let img = counting_image(33, 9);
    let small = fast_downscale(&img, 3);
    assert_eq!(small.dimensions(), (11, 3));
    for y in 0..3usize {
        for x in 0..11usize {
            for c in 0..3usize {
                assert_eq!(
                    small.as_raw()[(y * 11 + x) * 3 + c],
                    img.as_raw()[(y * 3 * 33 + x * 3) * 3 + c]
                );
            }
        }
    }
}

#[test]
fn downscaling_ignores_what_follows_the_pixels() {
    let mut samples: Vec<u8> = (0..12).collect();
    samples.extend([99, 98]);
    let img = RgbImage::from_raw(2, 2, samples).unwrap();
    let small = fast_downscale(&img, 2);
    assert_eq!(small.dimensions(), (1, 1));
    assert_eq!(*small.as_raw(), vec![0, 1, 2]);
}

#[test]
fn downscaling_an_image_without_rows() {
    let img = RgbImage::from_raw(4, 0, vec![]).unwrap();
    let small = fast_downscale(&img, 2);
    assert_eq!(small.dimensions(), (2, 0));
    assert_eq!(small.as_raw().len(), 0);
}

#[test]
fn downscaling_twice_is_downscaling_by_the_product() {
    let img = counting_image(24, 12);
    let twice = fast_downscale(&fast_downscale(&img, 2), 3);
    let once = fast_downscale(&img, 6);
    assert_eq!(twice.dimensions(), once.dimensions());
    assert_eq!(twice.as_raw(), once.as_raw());
}

fn tiled_index(tiles: usize, x: usize, y: usize) -> usize {
    (y / 8 * tiles + x / 128) * 1024 + y % 8 * 128 + x % 128
}

fn tiled_buffer(tiles: usize, bands: usize) -> Vec<u32> {
    (0..(tiles * bands * 1024) as u32)
        .map(|i| i.wrapping_mul(2_654_435_761) & 0x3FFF_FFFF)
        .collect()
}

fn scale(level: u32) -> u8 {
    ((level * 255 + 511) / 1023) as u8
}

#[test]
fn tiled_pixels_are_found() {
    let src = tiled_buffer(4, 3);
    assert!(xtiled_fits(src.len(), 2048, (387, 24), 3));
    let img = dump_intel_xtiled_xr30_decimated_to_image(&src, 2048, (387, 24), 3);
    assert_eq!(img.dimensions(), (129, 8));
    assert_eq!(img.as_raw().len(), 129 * 8 * 3);
    for y in 0..8usize {
        for x in 0..129usize {
            let word = src[tiled_index(4, x * 3, y * 3)];
            let at = (y * 129 + x) * 3;
            assert_eq!(img.as_raw()[at], scale(word >> 20 & 0x3FF));
            assert_eq!(img.as_raw()[at + 1], scale(word >> 10 & 0x3FF));
            assert_eq!(img.as_raw()[at + 2], scale(word & 0x3FF));
        }
    }
}

#[test]
fn factors_beyond_a_tile_are_fine() {
    let src = tiled_buffer(4, 50);
    let img = dump_intel_xtiled_xr30_decimated_to_image(&src, 2048, (400, 400), 200);
    assert_eq!(img.dimensions(), (2, 2));
    let word = src[tiled_index(4, 200, 200)];
    assert_eq!(img.as_raw()[9], scale(word >> 20 & 0x3FF));
    assert_eq!(img.as_raw()[11], scale(word & 0x3FF));
}

#[test]
fn a_tile_in_a_corner() {
    let mut src = vec![0u32; 1024];
    src[6] = 0x3FF0_0000;
    let img = dump_intel_xtiled_xr30_decimated_to_image(&src, 512, (12, 6), 6);
    assert_eq!(img.dimensions(), (2, 1));
    assert_eq!(*img.as_raw(), vec![0, 0, 0, 255, 0, 0]);
}

#[test]
fn thinning_then_downscaling_is_thinning_by_the_product() {
    let src = tiled_buffer(2, 6);
    let thinned = dump_intel_xtiled_xr30_decimated_to_image(&src, 1024, (240, 48), 2);
    let both = fast_downscale(&thinned, 3);
    let once = dump_intel_xtiled_xr30_decimated_to_image(&src, 1024, (240, 48), 6);
    assert_eq!(both.dimensions(), once.dimensions());
    assert_eq!(both.as_raw(), once.as_raw());
}

#[test]
fn tiled_lengths_and_bounds() {
    assert_eq!(xtiled_length_words(15360, 2160), 8_294_400);
    assert!(xtiled_fits(8_294_400, 15360, (3840, 2160), 6));
    assert!(!xtiled_fits(8_290_000, 15360, (3840, 2160), 6));
    // A last band that is cut short reaches past the rows.
    assert!(!xtiled_fits(xtiled_length_words(1024, 12), 1024, (132, 12), 2));
    assert!(xtiled_fits(0, 512, (1, 1), 2));
    // Rows shorter than a tile fold onto one another.
    assert!(xtiled_fits(769, 256, (6, 18), 6));
    assert!(!xtiled_fits(768, 256, (6, 18), 6));
}
