use drm_grabber::sand::{
    decode_nv12_image, decode_p030_image, has_sand128, sand_fits, sand_length, SandFormat,
    YUV420Pixel,
};
use drm_grabber::yuv420::{dump_yuv420_to_image, has_planes_in_order, yuv420_length};

const SAND128: u64 = 0x0700_0000_0000_0004;

fn sand(lines: u64) -> u64 {
    SAND128 | lines << 8
}

#[test]
fn sand_modifiers_carry_a_height() {
    assert!(has_sand128(SAND128));
    assert!(has_sand128(sand(1632)));
    assert!(has_sand128(sand(0xFFFF)));
    assert!(!has_sand128(0));
    assert!(!has_sand128(sand(0x1_0000)));
    assert!(!has_sand128(SAND128 + 1));
}

#[test]
fn sand_lengths_count_whole_columns() {
    assert_eq!(sand_length(SandFormat::P030, 1920, sand(1632)), 1632 * 20 * 32);
    assert_eq!(sand_length(SandFormat::Nv12, 1920, sand(1632)), 1632 * 15 * 32);
    assert_eq!(sand_length(SandFormat::Nv12, 127, sand(1632)), 0);
}

#[test]
fn sand_frames_of_whole_columns_fit() {
    let words = sand_length(SandFormat::P030, 1920, sand(1632));
    assert!(sand_fits(SandFormat::P030, words, (1920, 1080), sand(1632), 1088 * 128));
    assert!(!sand_fits(SandFormat::P030, words - 64 * 32, (1920, 1632), sand(1632), 0));
    assert!(!sand_fits(SandFormat::P030, words, (1920, 1080), sand(1632), 1632 * 128));
    // Part of a column is not counted, but would be read.
    let words = sand_length(SandFormat::P030, 1280, sand(1632));
    assert!(!sand_fits(SandFormat::P030, words, (1280, 1080), sand(1632), 1088 * 128));
    assert!(sand_fits(SandFormat::Nv12, 0, (3, 1080), sand(0), 0));
    assert!(sand_fits(SandFormat::Nv12, 0, (1920, 3), sand(0), 0));
    assert!(!sand_fits(SandFormat::Nv12, 0, (1920, 1080), sand(0), 0));
    // Half the rows, rounded down, are room enough for the chroma of an odd height.
    let words = sand_length(SandFormat::P030, 96, sand(5));
    assert!(sand_fits(SandFormat::P030, words, (96, 5), sand(5), 3 * 128));
    assert!(!sand_fits(SandFormat::P030, words, (96, 5), sand(5), 5 * 128));
}

#[test]
fn sand_frames_decode_one_way() {
    let plane: Vec<u32> = (0..5 * 32).map(|i: u32| i * 0x0101_0101).collect();
    let a = decode_p030_image(&plane, (96, 5), sand(5), 3 * 128);
    let b = decode_p030_image(&plane, (96, 5), sand(5), 3 * 128);
    assert_eq!((a.width, a.height), (32, 1));
    assert_eq!((a.width, a.height, a.pixels), (b.width, b.height, b.pixels));
}

#[test]
fn p030_frames_are_decoded() {
    let lines: usize = 12;
    let mut plane = vec![0u32; sand_length(SandFormat::P030, 192, sand(12))];
    let offset = 8 * 128;
    // Column 1, row 3, word 5: the kept pixel at (37, 1).
    plane[32 * lines + 3 * 32 + 5] = 0xABC0_0000 | 0x3FD;
    // Its chroma: row 1 of the chroma, the second word of the pair (4, 5).
    plane[32 * lines + 8 * 32 + 32 + 5] = 0x0012_3456;
    assert!(sand_fits(SandFormat::P030, plane.len(), (192, 6), sand(12), offset));
    let img = decode_p030_image(&plane, (192, 6), sand(12), offset);
    assert_eq!((img.width, img.height, img.pixels.len()), (64, 2, 128));
    assert_eq!(
        img.pixels[64 + 37],
        YUV420Pixel::new(0xFF, (0x0012_3456u32 >> 12) as u8, (0x0012_3456u32 >> 2) as u8)
    );
    // The pixel to its left shares the chroma.
    assert_eq!(
        img.pixels[64 + 36],
        YUV420Pixel { y: 0, u: 0x23, v: 0x15 }
    );
    assert_eq!(img.pixels[37], YUV420Pixel { y: 0, u: 0, v: 0 });
}

#[test]
fn nv12_frames_are_decoded() {
    let lines: usize = 8;
    let mut plane = vec![0u32; sand_length(SandFormat::Nv12, 256, sand(8))];
    let offset = 4 * 128;
    plane[32 * lines] = 0x1122_3344;
    plane[32 * lines + 4 * 32 + 1] = 0x5566_7788;
    assert!(sand_fits(SandFormat::Nv12, plane.len(), (256, 4), sand(8), offset));
    let img = decode_nv12_image(&plane, (256, 4), sand(8), offset);
    assert_eq!((img.width, img.height, img.pixels.len()), (64, 1, 64));
    assert_eq!(img.pixels[32], YUV420Pixel { y: 0x44, u: 0x88, v: 0x77 });
    assert_eq!(img.pixels[33], YUV420Pixel { y: 0, u: 0x88, v: 0x77 });
    assert_eq!(img.pixels[34], YUV420Pixel { y: 0, u: 0, v: 0 });
}

#[test]
fn planes_are_cut_out() {
    let pitches = [8, 4, 4, 0];
    let offsets = [2, 34, 42, 0];
    assert!(has_planes_in_order(4, &pitches, &offsets));
    assert_eq!(yuv420_length(4, &pitches, &offsets), 50);
    let buffer: Vec<u8> = (0..50).collect();
    let frame = dump_yuv420_to_image(&buffer, (7, 4), pitches, offsets);
    assert_eq!(frame.planes[0], &buffer[2..34]);
    assert_eq!(frame.planes[1], &buffer[34..42]);
    assert_eq!(frame.planes[2], &buffer[42..50]);
    assert_eq!(frame.size, (7, 4));
    assert_eq!(frame.pitches, [8, 4, 4]);
    assert!(!frame.small);
    // Half the pitch, a quarter of the bytes.
    assert_eq!(frame.planes[0].len(), 4 * frame.planes[1].len());
}

#[test]
fn wide_images_are_decoded_small() {
    let pitches = [1, 1, 1, 0];
    let offsets = [0, 0, 0, 0];
    let buffer = [5u8];
    assert!(!dump_yuv420_to_image(&buffer, (640, 1), pitches, offsets).small);
    assert!(dump_yuv420_to_image(&buffer, (641, 1), pitches, offsets).small);
}

#[test]
fn planes_out_of_order_are_refused() {
    assert!(!has_planes_in_order(4, &[8, 0, 4, 0], &[0, 32, 40, 0]));
    assert!(!has_planes_in_order(4, &[8, 4, 9, 0], &[0, 32, 40, 0]));
    assert!(!has_planes_in_order(4, &[8, 4, 4, 0], &[50, 32, 40, 0]));
    assert!(!has_planes_in_order(4, &[8, 4, 4, 0], &[0, 41, 40, 0]));
    assert!(!has_planes_in_order(4, &[8, 4, 4, 0], &[0, 32, u32::MAX, 0]));
    assert!(!has_planes_in_order(u32::MAX, &[8, 4, 4, 0], &[0, 0, 0, 0]));
    assert!(has_planes_in_order(0, &[8, 4, 4, 0], &[0, 0, 0, 0]));
}
