use drm_grabber::linear::{
    broadcom_tiled_layout, decimate_image_4, dump_linear_to_image, dump_linear_xr30_to_image,
    linear_length, TileLayout,
};
use drm_grabber::pixel::{ar30_to_ar24_inplace, ten_to_eight, xr30_to_xr24_inplace};

fn pack(r: u32, g: u32, b: u32) -> u32 {
    (r << 20) | (g << 10) | b
}

#[test]
fn black_and_white_keep_their_ends() {
    assert_eq!(ten_to_eight(0), (0, 0, 0));
    assert_eq!(ten_to_eight(0x3FFF_FFFF), (255, 255, 255));
}

#[test]
fn channels_come_out_in_order() {
    assert_eq!(ten_to_eight(pack(1023, 512, 2)), (255, 128, 0));
    assert_eq!(ten_to_eight(pack(4, 1, 1019)), (1, 0, 254));
    assert_eq!(ten_to_eight(pack(100, 200, 300)), (25, 50, 75));
}

#[test]
fn scaling_is_nearest_and_monotone() {
    let mut last: u32 = 0;
    for level in 0..1024u32 {
        let (_, _, b) = ten_to_eight(level);
        let error = 1023 * b as i64 - 255 * level as i64;
        assert!(error.abs() <= 511);
        assert!(b >= last);
        last = b;
    }
    assert_eq!(last, 255);
}

#[test]
fn top_bits_make_no_difference() {
    for top in 0..4u32 {
        assert_eq!(ten_to_eight((top << 30) | pack(7, 700, 1000)), ten_to_eight(pack(7, 700, 1000)));
    }
}

#[test]
fn buffers_are_converted_in_place() {
    let mut pixels = [pack(1023, 0, 0), pack(0, 1023, 0), pack(0, 0, 1023), 0xFFFF_FFFF];
    xr30_to_xr24_inplace(&mut pixels);
    assert_eq!(pixels, [0x00FF_0000, 0x0000_FF00, 0x0000_00FF, 0x00FF_FFFF]);
    let mut empty: [u32; 0] = [];
    xr30_to_xr24_inplace(&mut empty);
    assert_eq!(empty.len(), 0);
}

#[test]
fn alpha_is_dropped() {
    let mut pixels = [0xC000_0000 | pack(512, 512, 512), pack(512, 512, 512)];
    ar30_to_ar24_inplace(&mut pixels);
    assert_eq!(pixels, [0x0080_8080, 0x0080_8080]);
}

#[test]
fn every_fourth_pixel_is_kept() {
    let image: Vec<u32> = (0..9 * 8).collect();
    let mut copy = vec![7777u32; 5];
    decimate_image_4((9, 8), &image, &mut copy);
    assert_eq!(copy, vec![0, 4, 36, 40, 7777]);
}

#[test]
fn images_under_four_pixels_leave_the_copy_alone() {
    let image: Vec<u32> = vec![1, 2, 3];
    let mut copy = vec![9u32; 2];
    decimate_image_4((3, 100), &image, &mut copy);
    decimate_image_4((100, 3), &image, &mut copy);
    assert_eq!(copy, vec![9, 9]);
}

#[test]
fn linear_lengths() {
    assert_eq!(linear_length(7680, 1080, 32), 2_073_600);
    assert_eq!(linear_length(100, 3, 16), 150);
    assert_eq!(linear_length(0, 1080, 32), 0);
}

#[test]
fn linear_framebuffers_are_thinned() {
    let buffer: Vec<u32> = (0..8 * 8).collect();
    let frame = dump_linear_to_image(&buffer, 32, (8, 8));
    assert_eq!(frame.words, vec![0, 4, 32, 36]);
    assert_eq!(frame.pitch, 8);
    assert_eq!(frame.size, (2, 2));
}

#[test]
fn longer_rows_leave_zeros_behind_the_pixels() {
    let buffer: Vec<u32> = (1..=16 * 8).collect();
    let frame = dump_linear_to_image(&buffer, 64, (8, 8));
    assert_eq!(frame.words, vec![1, 5, 33, 37, 0, 0, 0, 0]);
    assert_eq!(frame.pitch, 16);
}

#[test]
fn ten_bit_framebuffers_are_thinned_and_scaled() {
    let mut buffer = vec![0u32; 64];
    buffer[0] = pack(1023, 0, 0);
    buffer[4] = 0xC000_0000 | pack(0, 1023, 0);
    buffer[32] = pack(512, 512, 512);
    buffer[33] = 0xFFFF_FFFF;
    let frame = dump_linear_xr30_to_image(buffer, 32, (8, 8));
    assert_eq!(frame.words, vec![0x00FF_0000, 0x0000_FF00, 0x0080_8080, 0]);
    assert_eq!(frame.pitch, 8);
    assert_eq!(frame.size, (2, 2));
}

#[test]
fn tiles_cover_the_image() {
    assert_eq!(
        broadcom_tiled_layout((1920, 1080), 32),
        TileLayout { tilesize: 32, tiles: (60, 34), words: 60 * 34 * 1024 }
    );
    assert_eq!(
        broadcom_tiled_layout((1, 33), 16),
        TileLayout { tilesize: 32, tiles: (1, 2), words: 1024 }
    );
    assert_eq!(
        broadcom_tiled_layout((0, 33), 32),
        TileLayout { tilesize: 32, tiles: (0, 2), words: 0 }
    );
}
