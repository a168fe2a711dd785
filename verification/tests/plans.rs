use drm_grabber::fourcc::Fourcc;
use drm_grabber::linear::TileLayout;
use drm_grabber::maps::{mapping_bytes, PersistentMaps};
use drm_grabber::plan::{
    plan_dump, plan_format, reports_close_error, CloseError, DumpError, DumpPlan, FbInfo,
};
use drm_grabber::sand::SandFormat;

const XR24: u32 = 0x3432_5258;
const AR24: u32 = 0x3432_5241;
const XR30: u32 = 0x3033_5258;
const AR30: u32 = 0x3033_5241;
const YU12: u32 = 0x3231_5559;
const RG16: u32 = 0x3631_4752;
const NV12: u32 = 0x3231_564E;
const P030: u32 = 0x3033_3050;

const VC4_T_TILED: u64 = 0x0700_0000_0000_0001;
const INTEL_X_TILED: u64 = 0x0100_0000_0000_0001;
const SAND128: u64 = 0x0700_0000_0000_0004;

fn info(width: u32, height: u32, pixel_format: u32, pitch: u32, modifier: u64) -> FbInfo {
    FbInfo {
        width,
        height,
        pixel_format,
        handles: [11, 12, 13, 14],
        pitches: [pitch, 0, 0, 0],
        offsets: [0, 0, 0, 0],
        modifier: [modifier, 0, 0, 0],
    }
}

#[test]
fn linear_framebuffers() {
    for format in [XR24, AR24] {
        assert_eq!(
            plan_dump(&info(1920, 1080, format, 7680, 0)),
            Ok(DumpPlan::Linear { handle: 11, pitch: 7680, size: (1920, 1080), words: 2_073_600 })
        );
    }
}

#[test]
fn linear_ten_bit_framebuffers() {
    for (format, modifier) in [(XR30, 0), (XR30, VC4_T_TILED), (AR30, 0), (AR30, VC4_T_TILED)] {
        assert_eq!(
            plan_dump(&info(1920, 1080, format, 7680, modifier)),
            Ok(DumpPlan::LinearXr30 {
                handle: 11,
                pitch: 7680,
                size: (1920, 1080),
                words: 2_073_600
            })
        );
    }
}

#[test]
fn short_rows_are_out_of_bounds() {
    assert_eq!(plan_dump(&info(1920, 1080, XR24, 1920, 0)), Err(DumpError::OutOfBounds));
    assert_eq!(plan_dump(&info(1920, 1080, XR30, 1920, 0)), Err(DumpError::OutOfBounds));
    assert!(plan_dump(&info(3, 3, XR24, 0, 0)).is_ok());
}

#[test]
fn uncountable_framebuffers_are_too_large() {
    assert_eq!(plan_dump(&info(8, 65536, XR24, 65536, 0)), Err(DumpError::TooLarge));
    assert_eq!(plan_dump(&info(8, 65536, RG16, 65536, 0)), Err(DumpError::TooLarge));
    assert_eq!(plan_dump(&info(u32::MAX, 1, XR24, 4, VC4_T_TILED)), Err(DumpError::TooLarge));
    assert_eq!(plan_dump(&info(65536, 65536, XR24, 4, VC4_T_TILED)), Err(DumpError::TooLarge));
}

#[test]
fn tiled_framebuffers() {
    assert_eq!(
        plan_dump(&info(1920, 1080, XR24, 7680, VC4_T_TILED)),
        Ok(DumpPlan::Vc4Tiled {
            handle: 11,
            size: (1920, 1080),
            layout: TileLayout { tilesize: 32, tiles: (60, 34), words: 2_088_960 }
        })
    );
}

#[test]
fn x_tiled_framebuffers() {
    for format in [XR30, AR30] {
        assert_eq!(
            plan_dump(&info(3840, 2160, format, 15360, INTEL_X_TILED)),
            Ok(DumpPlan::IntelXtiled {
                handle: 11,
                pitch: 15360,
                size: (3840, 2160),
                decim: 6,
                words: 8_294_400
            })
        );
        assert_eq!(
            plan_dump(&info(1920, 1080, format, 7680, INTEL_X_TILED)),
            Ok(DumpPlan::IntelXtiled {
                handle: 11,
                pitch: 7680,
                size: (1920, 1080),
                decim: 6,
                words: 2_073_600
            })
        );
        assert_eq!(
            plan_dump(&info(3841, 2160, format, 15872, INTEL_X_TILED)),
            Err(DumpError::Indivisible)
        );
        assert_eq!(
            plan_dump(&info(3840, 2161, format, 15360, INTEL_X_TILED)),
            Err(DumpError::Indivisible)
        );
    }
}

#[test]
fn sand_framebuffers() {
    for (format, code, words) in
        [(SandFormat::P030, P030, 1632 * 20 * 32), (SandFormat::Nv12, NV12, 1632 * 15 * 32)]
    {
        let mut fb = info(1920, 1080, code, 128, SAND128 | 1632 << 8);
        fb.offsets[1] = 1088 * 128;
        let plan = plan_dump(&fb);
        assert_eq!(
            plan,
            Ok(DumpPlan::Sand {
                format,
                handle: 11,
                size: (1920, 1080),
                modifier: SAND128 | 1632 << 8,
                offset: 1088 * 128,
                words
            })
        );
        fb.offsets[1] = 1632 * 128;
        assert_eq!(plan_dump(&fb), Err(DumpError::OutOfBounds));
        fb.modifier[0] = 0;
        assert_eq!(plan_dump(&fb), Err(DumpError::NotSand128 { format, modifier: 0 }));
    }
}

#[test]
fn planar_framebuffers() {
    let mut fb = info(640, 480, YU12, 640, 0);
    fb.pitches = [640, 320, 320, 0];
    fb.offsets = [0, 307_200, 384_000, 0];
    assert_eq!(
        plan_dump(&fb),
        Ok(DumpPlan::Yuv420 {
            handle: 11,
            size: (640, 480),
            pitches: fb.pitches,
            offsets: fb.offsets,
            bytes: 460_800
        })
    );
    fb.pitches[2] = 0;
    assert_eq!(plan_dump(&fb), Err(DumpError::BadPlanes));
}

#[test]
fn rgb565_framebuffers() {
    assert_eq!(
        plan_dump(&info(800, 600, RG16, 1600, 5)),
        Ok(DumpPlan::Rgb565 { handle: 11, pitch: 1600, size: (800, 600), halfwords: 480_000 })
    );
}

#[test]
fn other_formats_are_refused() {
    // No format at all, and one that there is no decoder for.
    assert_eq!(
        plan_dump(&info(8, 8, 0, 32, 0)),
        Err(DumpError::UnrecognizedFormat { code: 0 })
    );
    assert_eq!(
        plan_dump(&info(8, 8, 875_710_274, 32, 0)),
        Err(DumpError::UnsupportedFormat { code: 875_710_274 })
    );
    for format in [XR24, AR24] {
        assert_eq!(
            plan_dump(&info(8, 8, format, 32, INTEL_X_TILED)),
            Err(DumpError::UnsupportedModifier { modifier: INTEL_X_TILED })
        );
        assert_eq!(
            plan_dump(&info(8, 8, format, 32, 42)),
            Err(DumpError::UnsupportedModifier { modifier: 42 })
        );
    }
}

#[test]
fn formats_that_were_looked_up() {
    let fb = info(8, 8, 0, 32, 0);
    assert_eq!(plan_format(None, &fb), Err(DumpError::UnrecognizedFormat { code: 0 }));
    assert_eq!(
        plan_format(Some(Fourcc::Other), &fb),
        Err(DumpError::UnsupportedFormat { code: 0 })
    );
    assert_eq!(
        plan_format(Some(Fourcc::Argb8888), &fb),
        Ok(DumpPlan::Linear { handle: 11, pitch: 32, size: (8, 8), words: 64 })
    );
}

#[test]
fn all_but_p030_handles_are_closed() {
    let mut fb = info(96, 3, P030, 128, SAND128 | 8 << 8);
    assert!(!plan_dump(&fb).unwrap().closes_handle());
    fb.width = 128;
    fb.height = 4;
    fb.pixel_format = NV12;
    assert!(plan_dump(&fb).unwrap().closes_handle());
    assert!(plan_dump(&info(8, 8, XR24, 32, 0)).unwrap().closes_handle());
}

#[test]
fn handles_that_are_gone_are_no_news() {
    assert!(!reports_close_error(CloseError::InvalidArgument));
    assert!(!reports_close_error(CloseError::Unknown { errno: 2 }));
    assert!(reports_close_error(CloseError::Unknown { errno: 12 }));
    assert!(reports_close_error(CloseError::Other));
}

#[test]
fn handles_are_mapped_once() {
    let mut maps: PersistentMaps<u64> = PersistentMaps::new();
    assert_eq!(maps.get_persistent_map(3, || Err("no")), Err("no"));
    assert_eq!(maps.get_persistent_map(3, || Ok::<u64, &str>(30)), Ok(30));
    assert_eq!(maps.get_persistent_map(4, || Ok::<u64, &str>(40)), Ok(40));
    assert_eq!(maps.get_persistent_map(3, || Err("again")), Ok(30));
    assert_eq!(maps.get_persistent_map(3, || Ok::<u64, &str>(31)), Ok(30));
    assert_eq!(maps.get_persistent_map(4, || panic!("mapped twice")), Ok::<u64, &str>(40));
}

#[test]
fn mappings_are_counted_in_bytes() {
    assert_eq!(mapping_bytes(8_294_400, 4), 33_177_600);
    assert_eq!(mapping_bytes(7, 1), 7);
}
