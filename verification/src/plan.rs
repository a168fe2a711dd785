//! What to read of a framebuffer and how to decode it.

use crate::fourcc::{
    format_of, fourcc_of, modifier_of, parse_fourcc, parse_modifier, Fourcc, Modifier,
    INTEL_X_TILED, P030,
};
use crate::linear::{
    broadcom_tiled_layout, decimate_fits, dump_linear_to_image, dump_linear_xr30_to_image,
    lemma_full_rows_decimate, linear_length, tile_count, tiled_bytes, tiles_countable, TileLayout,
    DECIM, VC4_TILE,
};
use crate::rgb_image::image_fits;
use crate::sand::{
    decode_nv12_image, decode_p030_image, has_sand128, is_sand128, lemma_modifier_lines,
    lemma_nv12_readable,
    lemma_p030_readable, lemma_sand128_lines, lemma_whole_columns_readable, nv12_reads_within,
    p030_reads_within, sand_fits, sand_image_fits, sand_length, sand_lines, sand_readable,
    sand_words, SandFormat, SAND_STRIDE,
};
use crate::xtiled::{
    dump_intel_xtiled_xr30_decimated_to_image, lemma_rows_hold_kept_pixels,
    lemma_whole_tiles_readable, tile_word, tiles_per_pitch, xtiled_fits, xtiled_length_words,
    xtiled_readable,
};
use crate::yuv420::{
    dump_yuv420_to_image, has_planes_in_order, lemma_plane_starts, lemma_planes_stop, plane_end,
    plane_stop, planes_in_order, planes_stop_in_order, yuv420_length,
};
use vstd::prelude::*;

verus! {

/// What the kernel reports of a framebuffer.
#[derive(Clone, Copy, Debug, PartialEq, Eq)]
pub struct FbInfo {
    pub width: u32,
    pub height: u32,
    pub pixel_format: u32,
    pub handles: [u32; 4],
    pub pitches: [u32; 4],
    pub offsets: [u32; 4],
    pub modifier: [u64; 4],
}

/// What to read of a framebuffer, through which handle, and what to decode it with.
#[allow(inconsistent_fields)]
#[derive(Clone, Copy, Debug, PartialEq, Eq)]
pub enum DumpPlan {
    /// `words` 32-bit words of a SAND128 frame.
    Sand {
        format: SandFormat,
        handle: u32,
        size: (usize, usize),
        modifier: u64,
        offset: usize,
        words: usize,
    },
    /// The tiles of a Broadcom VC4 framebuffer.
    Vc4Tiled { handle: u32, size: (u32, u32), layout: TileLayout },
    /// `words` 32-bit words of a linear framebuffer with eight bits for each channel.
    Linear { handle: u32, pitch: u32, size: (u32, u32), words: u32 },
    /// `words` 32-bit words of a linear framebuffer with ten bits for each channel.
    LinearXr30 { handle: u32, pitch: u32, size: (u32, u32), words: u32 },
    /// A mapping of `words` 32-bit words of an Intel X-tiled framebuffer with ten bits for each
    /// channel, thinned by `decim`.
    IntelXtiled { handle: u32, pitch: u32, size: (u32, u32), decim: usize, words: usize },
    /// `bytes` bytes of a framebuffer with a plane for each channel.
    Yuv420 {
        handle: u32,
        size: (u32, u32),
        pitches: [u32; 4],
        offsets: [u32; 4],
        bytes: u32,
    },
    /// `halfwords` 16-bit words of an RGB565 framebuffer.
    Rgb565 { handle: u32, pitch: u32, size: (u32, u32), halfwords: u32 },
}

/// Why a framebuffer cannot be dumped.
#[derive(Clone, Copy, Debug, PartialEq, Eq, Structural)]
pub enum DumpError {
    /// DRM lists no format with this code.
    UnrecognizedFormat { code: u32 },
    /// No decoder for the format.
    UnsupportedFormat { code: u32 },
    /// No decoder for the layout.
    UnsupportedModifier { modifier: u64 },
    /// A SAND format without the SAND128 layout.
    NotSand128 { format: SandFormat, modifier: u64 },
    /// The image cannot be thinned evenly.
    Indivisible,
    /// A length or an address does not fit in its type.
    TooLarge,
    /// A pixel that is to be kept lies outside the buffer.
    OutOfBounds,
    /// A plane is empty or wider than the first, or ends after the last or past 32 bits.
    BadPlanes,
}

/// The factor that an Intel X-tiled framebuffer is thinned by.
pub const XTILED_DECIM: usize = 6;

/// The plan for a SAND128 frame.
pub open spec fn sand_plan(format: SandFormat, info: FbInfo) -> Result<DumpPlan, DumpError> {
    let modifier = info.modifier[0];
    let words = sand_words(format, info.width as int, modifier);
    if !is_sand128(modifier) {
        Err(DumpError::NotSand128 { format, modifier })
    } else if 4 * words > isize::MAX || !image_fits(
        info.width as int / format.word_pixels(),
        info.height as int / format.word_pixels(),
    ) {
        Err(DumpError::TooLarge)
    } else if !sand_readable(
        format,
        words,
        info.width as int,
        info.height as int,
        modifier,
        info.offsets[1] as int,
    ) {
        Err(DumpError::OutOfBounds)
    } else {
        Ok(
            DumpPlan::Sand {
                format,
                handle: info.handles[0],
                size: (info.width as usize, info.height as usize),
                modifier,
                offset: info.offsets[1] as usize,
                words: words as usize,
            },
        )
    }
}

/// Why a linear framebuffer of 32-bit words cannot be thinned by four, if it cannot.
pub open spec fn linear_obstacle(info: FbInfo) -> Option<DumpError> {
    let words = info.pitches[0] * info.height / 4;
    if info.pitches[0] * info.height > u32::MAX || 4 * words > isize::MAX {
        Some(DumpError::TooLarge)
    } else if !decimate_fits((info.width as int, info.height as int), words, words / 16) {
        Some(DumpError::OutOfBounds)
    } else {
        None
    }
}

/// The plan for a framebuffer with eight bits for each channel.
pub open spec fn xrgb8888_plan(info: FbInfo) -> Result<DumpPlan, DumpError> {
    let size = (info.width, info.height);
    match modifier_of(info.modifier[0]) {
        Modifier::Vc4TTiled => if !tiles_countable(size, 32) || tiled_bytes(size, 32) > isize::MAX {
            Err(DumpError::TooLarge)
        } else {
            Ok(
                DumpPlan::Vc4Tiled {
                    handle: info.handles[0],
                    size,
                    layout: TileLayout {
                        tilesize: VC4_TILE,
                        tiles: (
                            tile_count(info.width as int) as u32,
                            tile_count(info.height as int) as u32,
                        ),
                        words: (tiled_bytes(size, 32) / 4) as u32,
                    },
                },
            )
        },
        Modifier::Linear => match linear_obstacle(info) {
            Some(e) => Err(e),
            None => Ok(
                DumpPlan::Linear {
                    handle: info.handles[0],
                    pitch: info.pitches[0],
                    size,
                    words: (info.pitches[0] * info.height / 4) as u32,
                },
            ),
        },
        Modifier::Other => Err(DumpError::UnsupportedModifier { modifier: info.modifier[0] }),
    }
}

/// The plan for a linear framebuffer with ten bits for each channel.
pub open spec fn linear_xr30_plan(info: FbInfo) -> Result<DumpPlan, DumpError> {
    match linear_obstacle(info) {
        Some(e) => Err(e),
        None => Ok(
            DumpPlan::LinearXr30 {
                handle: info.handles[0],
                pitch: info.pitches[0],
                size: (info.width, info.height),
                words: (info.pitches[0] * info.height / 4) as u32,
            },
        ),
    }
}

/// The plan for an Intel X-tiled framebuffer with ten bits for each channel.
pub open spec fn xtiled_plan(info: FbInfo) -> Result<DumpPlan, DumpError> {
    let words = info.pitches[0] as int / 4 * info.height;
    if info.width as int % XTILED_DECIM as int != 0 || info.height as int % XTILED_DECIM as int
        != 0 {
        Err(DumpError::Indivisible)
    } else if 4 * words > isize::MAX || !image_fits(
        info.width as int / XTILED_DECIM as int,
        info.height as int / XTILED_DECIM as int,
    ) {
        Err(DumpError::TooLarge)
    } else {
        Ok(
            DumpPlan::IntelXtiled {
                handle: info.handles[0],
                pitch: info.pitches[0],
                size: (info.width, info.height),
                decim: XTILED_DECIM,
                words: words as usize,
            },
        )
    }
}

/// The plan for a framebuffer with ten bits for each channel.
pub open spec fn xr30_plan(info: FbInfo) -> Result<DumpPlan, DumpError> {
    if info.modifier[0] == INTEL_X_TILED {
        xtiled_plan(info)
    } else {
        linear_xr30_plan(info)
    }
}

/// The plan for a framebuffer with a plane for each channel.
pub open spec fn yuv420_plan(info: FbInfo) -> Result<DumpPlan, DumpError> {
    let end = plane_end(info.height, info.pitches@, info.offsets@, 2);
    if !planes_in_order(info.height, info.pitches@, info.offsets@) {
        Err(DumpError::BadPlanes)
    } else if end > isize::MAX {
        Err(DumpError::TooLarge)
    } else {
        Ok(
            DumpPlan::Yuv420 {
                handle: info.handles[0],
                size: (info.width, info.height),
                pitches: info.pitches,
                offsets: info.offsets,
                bytes: end as u32,
            },
        )
    }
}

/// The plan for an RGB565 framebuffer.
pub open spec fn rgb565_plan(info: FbInfo) -> Result<DumpPlan, DumpError> {
    if info.pitches[0] * info.height > u32::MAX || info.pitches[0] * info.height > isize::MAX {
        Err(DumpError::TooLarge)
    } else {
        Ok(
            DumpPlan::Rgb565 {
                handle: info.handles[0],
                pitch: info.pitches[0],
                size: (info.width, info.height),
                halfwords: (info.pitches[0] * info.height / 2) as u32,
            },
        )
    }
}

/// The plan for a framebuffer whose format, other than P030, is known.
pub open spec fn format_plan(format: Option<Fourcc>, info: FbInfo) -> Result<DumpPlan, DumpError> {
    match format {
        None => Err(DumpError::UnrecognizedFormat { code: info.pixel_format }),
        Some(Fourcc::Xrgb8888) => xrgb8888_plan(info),
        Some(Fourcc::Argb8888) => xrgb8888_plan(info),
        Some(Fourcc::Xrgb2101010) => xr30_plan(info),
        Some(Fourcc::Argb2101010) => xr30_plan(info),
        Some(Fourcc::Yuv420) => yuv420_plan(info),
        Some(Fourcc::Rgb565) => rgb565_plan(info),
        Some(Fourcc::Nv12) => sand_plan(SandFormat::Nv12, info),
        Some(Fourcc::Other) => Err(DumpError::UnsupportedFormat { code: info.pixel_format }),
    }
}

/// The plan for a framebuffer.
pub open spec fn dump_plan(info: FbInfo) -> Result<DumpPlan, DumpError> {
    if info.pixel_format == P030 {
        sand_plan(SandFormat::P030, info)
    } else {
        format_plan(format_of(info.pixel_format), info)
    }
}

/// Whether the samples of a `width` by `height` image fit in memory.
fn can_hold_image(width: u32, height: u32) -> (r: bool)
    ensures
        r == image_fits(width as int, height as int),
{
    assert(0 <= 3 * width * height <= 3 * 0xFFFF_FFFF * 0xFFFF_FFFF) by (nonlinear_arith)
        requires
            0 <= width <= 0xFFFF_FFFF,
            0 <= height <= 0xFFFF_FFFF,
    ;
    3 * width as u128 <= usize::MAX as u128 && 3 * width as u128 * height as u128
        <= isize::MAX as u128
}

fn plan_sand(format: SandFormat, info: &FbInfo) -> (r: Result<DumpPlan, DumpError>)
    ensures
        r == sand_plan(format, *info),
{
    let modifier: u64 = info.modifier[0];
    if !has_sand128(modifier) {
        return Err(DumpError::NotSand128 { format, modifier });
    }
    let size: (usize, usize) = (info.width as usize, info.height as usize);
    let offset: usize = info.offsets[1] as usize;
    let decim: u32 = format.pixels_per_word() as u32;
    let colpx: u32 = format.pixels_per_column() as u32;
    let columns: u64 = (info.width / colpx) as u64;
    let lines: u64 = modifier / 256 % 65536;
    assert(0 <= lines * columns <= 65536 * 0xFFFF_FFFF) by (nonlinear_arith)
        requires
            0 <= lines <= 65536,
            0 <= columns <= 0xFFFF_FFFF,
    ;
    if lines * columns * 32 * 4 > isize::MAX as u64 || !can_hold_image(
        info.width / decim,
        info.height / decim,
    ) {
        return Err(DumpError::TooLarge);
    }
    let words: usize = sand_length(format, size.0, modifier);
    if !sand_fits(format, words, size, modifier, offset) {
        return Err(DumpError::OutOfBounds);
    }
    Ok(DumpPlan::Sand { format, handle: info.handles[0], size, modifier, offset, words })
}

/// The words of a linear framebuffer that can be thinned by four, or why it cannot.
fn linear_words(info: &FbInfo) -> (r: Result<u32, DumpError>)
    ensures
        match r {
            Ok(words) => linear_obstacle(*info) is None && words == info.pitches[0] * info.height
                / 4,
            Err(e) => linear_obstacle(*info) == Some(e),
        },
{
    let pitch: u32 = info.pitches[0];
    assert(0 <= pitch * info.height <= 0xFFFF_FFFF * 0xFFFF_FFFF) by (nonlinear_arith)
        requires
            0 <= pitch <= 0xFFFF_FFFF,
            0 <= info.height <= 0xFFFF_FFFF,
    ;
    if pitch as u64 * info.height as u64 > u32::MAX as u64 {
        return Err(DumpError::TooLarge);
    }
    let words: u32 = linear_length(pitch, info.height, 32);
    if 4 * words as u64 > isize::MAX as u64 {
        return Err(DumpError::TooLarge);
    }
    if info.width >= 4 && info.height >= 4 {
        let w: u128 = info.width as u128;
        let new_w: u128 = w / 4;
        let new_h: u128 = info.height as u128 / 4;
        assert(0 <= (new_h - 1) * 4 * w <= 0x1_0000_0000 * 0x1_0000_0000 && 0 <= new_h * new_w
            <= 0x1_0000_0000 * 0x1_0000_0000) by (nonlinear_arith)
            requires
                1 <= new_w <= 0x4000_0000,
                1 <= new_h <= 0x4000_0000,
                0 <= w <= 0x1_0000_0000,
        ;
        if (new_h - 1) * 4 * w + (new_w - 1) * 4 >= words as u128 || new_h * new_w > words as u128
            / 16 {
            return Err(DumpError::OutOfBounds);
        }
    }
    Ok(words)
}

/// Whether the tiles that cover an image can be counted and held.
fn can_hold_tiles(size: (u32, u32)) -> (r: bool)
    ensures
        r == (tiles_countable(size, 32) && tiled_bytes(size, 32) <= isize::MAX),
{
    if size.0 > u32::MAX - VC4_TILE || size.1 > u32::MAX - VC4_TILE {
        return false;
    }
    let across: u128 = (size.0 as u128 + 31) / 32;
    let down: u128 = (size.1 as u128 + 31) / 32;
    assert(0 <= across * down <= 0x1_0000_0000 * 0x1_0000_0000) by (nonlinear_arith)
        requires
            0 <= across <= 0x1_0000_0000,
            0 <= down <= 0x1_0000_0000,
    ;
    let bytes: u128 = across * down * 32 * 32 * 4;
    bytes <= u32::MAX as u128 && bytes <= isize::MAX as u128
}

fn plan_xrgb8888(info: &FbInfo) -> (r: Result<DumpPlan, DumpError>)
    ensures
        r == xrgb8888_plan(*info),
{
    let size: (u32, u32) = (info.width, info.height);
    match parse_modifier(info.modifier[0]) {
        Modifier::Vc4TTiled => {
            if !can_hold_tiles(size) {
                return Err(DumpError::TooLarge);
            }
            let layout: TileLayout = broadcom_tiled_layout(size, 32);
            Ok(DumpPlan::Vc4Tiled { handle: info.handles[0], size, layout })
        },
        Modifier::Linear => match linear_words(info) {
            Err(e) => Err(e),
            Ok(words) => Ok(
                DumpPlan::Linear {
                    handle: info.handles[0],
                    pitch: info.pitches[0],
                    size,
                    words,
                },
            ),
        },
        Modifier::Other => Err(DumpError::UnsupportedModifier { modifier: info.modifier[0] }),
    }
}

fn plan_linear_xr30(info: &FbInfo) -> (r: Result<DumpPlan, DumpError>)
    ensures
        r == linear_xr30_plan(*info),
{
    match linear_words(info) {
        Err(e) => Err(e),
        Ok(words) => Ok(
            DumpPlan::LinearXr30 {
                handle: info.handles[0],
                pitch: info.pitches[0],
                size: (info.width, info.height),
                words,
            },
        ),
    }
}

fn plan_xtiled(info: &FbInfo) -> (r: Result<DumpPlan, DumpError>)
    ensures
        r == xtiled_plan(*info),
{
    let decim: u32 = XTILED_DECIM as u32;
    if info.width % decim != 0 || info.height % decim != 0 {
        return Err(DumpError::Indivisible);
    }
    let pitch: u32 = info.pitches[0];
    assert(0 <= pitch as int / 4 * info.height <= 0x4000_0000 * 0xFFFF_FFFF) by (nonlinear_arith)
        requires
            0 <= pitch <= 0xFFFF_FFFF,
            0 <= info.height <= 0xFFFF_FFFF,
    ;
    if 4 * ((pitch / 4) as u128 * info.height as u128) > isize::MAX as u128 || !can_hold_image(
        info.width / decim,
        info.height / decim,
    ) {
        return Err(DumpError::TooLarge);
    }
    Ok(
        DumpPlan::IntelXtiled {
            handle: info.handles[0],
            pitch,
            size: (info.width, info.height),
            decim: XTILED_DECIM,
            words: xtiled_length_words(pitch, info.height),
        },
    )
}

fn plan_xr30(info: &FbInfo) -> (r: Result<DumpPlan, DumpError>)
    ensures
        r == xr30_plan(*info),
{
    if info.modifier[0] == INTEL_X_TILED {
        plan_xtiled(info)
    } else {
        plan_linear_xr30(info)
    }
}

fn plan_yuv420(info: &FbInfo) -> (r: Result<DumpPlan, DumpError>)
    ensures
        r == yuv420_plan(*info),
{
    if !has_planes_in_order(info.height, &info.pitches, &info.offsets) {
        return Err(DumpError::BadPlanes);
    }
    let bytes: u32 = yuv420_length(info.height, &info.pitches, &info.offsets);
    if bytes as u64 > isize::MAX as u64 {
        return Err(DumpError::TooLarge);
    }
    Ok(
        DumpPlan::Yuv420 {
            handle: info.handles[0],
            size: (info.width, info.height),
            pitches: info.pitches,
            offsets: info.offsets,
            bytes,
        },
    )
}

fn plan_rgb565(info: &FbInfo) -> (r: Result<DumpPlan, DumpError>)
    ensures
        r == rgb565_plan(*info),
{
    let pitch: u32 = info.pitches[0];
    assert(0 <= pitch * info.height <= 0xFFFF_FFFF * 0xFFFF_FFFF) by (nonlinear_arith)
        requires
            0 <= pitch <= 0xFFFF_FFFF,
            0 <= info.height <= 0xFFFF_FFFF,
    ;
    let bytes: u64 = pitch as u64 * info.height as u64;
    if bytes > u32::MAX as u64 || bytes > isize::MAX as u64 {
        return Err(DumpError::TooLarge);
    }
    Ok(
        DumpPlan::Rgb565 {
            handle: info.handles[0],
            pitch,
            size: (info.width, info.height),
            halfwords: linear_length(pitch, info.height, 16),
        },
    )
}

/// Plans the dump of a framebuffer whose format, other than P030, has been looked up.
pub fn plan_format(format: Option<Fourcc>, info: &FbInfo) -> (r: Result<DumpPlan, DumpError>)
    ensures
        r == format_plan(format, *info),
{
    match format {
        None => Err(DumpError::UnrecognizedFormat { code: info.pixel_format }),
        Some(Fourcc::Xrgb8888) => plan_xrgb8888(info),
        Some(Fourcc::Argb8888) => plan_xrgb8888(info),
        Some(Fourcc::Xrgb2101010) => plan_xr30(info),
        Some(Fourcc::Argb2101010) => plan_xr30(info),
        Some(Fourcc::Yuv420) => plan_yuv420(info),
        Some(Fourcc::Rgb565) => plan_rgb565(info),
        Some(Fourcc::Nv12) => plan_sand(SandFormat::Nv12, info),
        Some(Fourcc::Other) => Err(DumpError::UnsupportedFormat { code: info.pixel_format }),
    }
}

/// Plans the dump of a framebuffer: what to read of it, and how to decode that.
pub fn plan_dump(info: &FbInfo) -> (r: Result<DumpPlan, DumpError>)
    ensures
        r == dump_plan(*info),
        info.pixel_format != P030 && fourcc_of(info.pixel_format) != Fourcc::Other ==> r
            == format_plan(Some(fourcc_of(info.pixel_format)), *info),
        info.pixel_format != P030 && fourcc_of(info.pixel_format) == Fourcc::Other ==> r is Err,
{
    if info.pixel_format == P030 {
        return plan_sand(SandFormat::P030, info);
    }
    plan_format(parse_fourcc(info.pixel_format), info)
}

impl DumpPlan {
    /// The handle that is read through.
    pub open spec fn spec_handle(self) -> u32 {
        match self {
            DumpPlan::Sand { handle, .. } => handle,
            DumpPlan::Vc4Tiled { handle, .. } => handle,
            DumpPlan::Linear { handle, .. } => handle,
            DumpPlan::LinearXr30 { handle, .. } => handle,
            DumpPlan::IntelXtiled { handle, .. } => handle,
            DumpPlan::Yuv420 { handle, .. } => handle,
            DumpPlan::Rgb565 { handle, .. } => handle,
        }
    }

    /// Whether a buffer of the planned length meets what its decoder asks for. Of an X-tiled
    /// framebuffer, whose mapping may be an older one, all but its length is asked.
    pub open spec fn decodable(self) -> bool {
        match self {
            DumpPlan::Sand { format, size, modifier, offset, words, .. } => {
                &&& is_sand128(modifier)
                &&& sand_readable(
                    format,
                    words as int,
                    size.0 as int,
                    size.1 as int,
                    modifier,
                    offset as int,
                )
                &&& sand_image_fits(format, words as int, size.0 as int, size.1 as int)
            },
            DumpPlan::Vc4Tiled { size, layout, .. } => {
                &&& layout.tiles.0 * layout.tilesize >= size.0
                &&& layout.tiles.1 * layout.tilesize >= size.1
                &&& layout.words == layout.tiles.0 * layout.tiles.1 * layout.tilesize
                    * layout.tilesize
            },
            DumpPlan::Linear { size, words, .. } => decimate_fits(
                (size.0 as int, size.1 as int),
                words as int,
                words as int / 16,
            ),
            DumpPlan::LinearXr30 { size, words, .. } => decimate_fits(
                (size.0 as int, size.1 as int),
                words as int,
                words as int / 16,
            ),
            DumpPlan::IntelXtiled { pitch, size, decim, words, .. } => {
                &&& words == pitch as int / 4 * size.1
                &&& decim >= 2
                &&& size.0 as int % decim as int == 0
                &&& size.1 as int % decim as int == 0
                &&& image_fits(size.0 as int / decim as int, size.1 as int / decim as int)
            },
            DumpPlan::Yuv420 { size, pitches, offsets, bytes, .. } => {
                &&& planes_in_order(size.1, pitches@, offsets@)
                &&& bytes == plane_end(size.1, pitches@, offsets@, 2)
            },
            DumpPlan::Rgb565 { .. } => true,
        }
    }

    /// Whether the handle is closed once the framebuffer has been decoded: after all but P030
    /// frames.
    pub fn closes_handle(&self) -> (r: bool)
        ensures
            r == !(self matches DumpPlan::Sand { format: SandFormat::P030, .. }),
    {
        match self {
            DumpPlan::Sand { format: SandFormat::P030, .. } => false,
            _ => true,
        }
    }
}

/// Every plan can be carried out: a buffer of the length that it names meets what the decoder asks
/// for.
pub proof fn lemma_plans_are_decodable(info: FbInfo)
    ensures
        dump_plan(info) matches Ok(plan) ==> plan.decodable(),
{
    if dump_plan(info) is Ok {
        let plan = dump_plan(info)->Ok_0;
        if plan is Vc4Tiled {
            let a = tile_count(info.width as int);
            let d = tile_count(info.height as int);
            assert(0 <= a * d) by (nonlinear_arith)
                requires
                    0 <= a,
                    0 <= d,
            ;
            assert(tiled_bytes((info.width, info.height), 32) == a * d * VC4_TILE * VC4_TILE * 4);
            let layout = plan->layout;
            assert(layout.tiles.0 == a && layout.tiles.1 == d);
            assert(layout.words == a * d * VC4_TILE * VC4_TILE);
        }
    }
}

/// Every framebuffer is read through its first handle.
pub proof fn lemma_plans_read_first_handle(info: FbInfo)
    ensures
        dump_plan(info) matches Ok(plan) ==> plan.spec_handle() == info.handles[0],
{
}

/// An alpha channel makes no difference to how a framebuffer is read.
pub proof fn lemma_alpha_is_ignored(info: FbInfo)
    ensures
        format_plan(Some(Fourcc::Argb8888), info) == format_plan(Some(Fourcc::Xrgb8888), info),
        format_plan(Some(Fourcc::Argb2101010), info) == format_plan(
            Some(Fourcc::Xrgb2101010),
            info,
        ),
{
}

/// A linear framebuffer of 32-bit words can be dumped wherever its rows are as long as their
/// pixels and its bytes can be counted.
pub proof fn lemma_linear_framebuffers_are_planned(info: FbInfo)
    requires
        4 * info.width <= info.pitches[0],
        info.pitches[0] * info.height <= u32::MAX,
        info.pitches[0] * info.height <= isize::MAX,
    ensures
        linear_xr30_plan(info) is Ok,
        info.modifier[0] == 0 ==> xrgb8888_plan(info) is Ok,
{
    lemma_full_rows_decimate(info.pitches[0], (info.width, info.height));
}

/// A SAND128 frame can be dumped wherever its width is a whole number of columns, its columns are
/// tall enough for its luma and for its chroma, and its words fit in memory.
pub proof fn lemma_sand_frames_are_planned(format: SandFormat, info: FbInfo)
    requires
        is_sand128(info.modifier[0]),
        info.width as int % format.column_pixels() == 0,
        info.height <= sand_lines(info.modifier[0]),
        info.offsets[1] as int / 4 + info.height as int / 2 * SAND_STRIDE <= sand_lines(
            info.modifier[0],
        ) * SAND_STRIDE,
        4 * sand_words(format, info.width as int, info.modifier[0]) <= isize::MAX,
    ensures
        sand_plan(format, info) is Ok,
{
    let w = info.width as int / format.word_pixels();
    let h = info.height as int / format.word_pixels();
    assert(3 * w * h == 3 * (w * h)) by (nonlinear_arith);
    lemma_whole_columns_readable(
        format,
        info.width as int,
        info.height as int,
        info.modifier[0],
        info.offsets[1] as int,
    );
}

/// Why closing a handle failed.
#[derive(Clone, Copy, Debug, PartialEq, Eq, Structural)]
pub enum CloseError {
    InvalidArgument,
    /// An error that has no name of its own, with its number.
    Unknown { errno: i32 },
    Other,
}

/// The number of the error that says that there is no such entry.
pub const ENOENT: i32 = 2;

/// Whether a failure to close a handle is worth a message: a handle that is gone already is not.
pub fn reports_close_error(e: CloseError) -> (r: bool)
    ensures
        r == (e != CloseError::InvalidArgument && e != (CloseError::Unknown { errno: ENOENT })),
{
    match e {
        CloseError::InvalidArgument => false,
        CloseError::Unknown { errno } => errno != ENOENT,
        CloseError::Other => true,
    }
}

/// What fits in memory, in one product.
proof fn lemma_image_fits(width: int, height: int)
    requires
        0 <= width,
        0 <= height,
        3 * width <= u32::MAX,
    ensures
        image_fits(width, height) == (3 * (width * height) <= isize::MAX),
{
    assert(3 * width * height == 3 * (width * height)) by (nonlinear_arith);
}

/// Whether an image that is thinned by four is read within `words` words, row after row of its width,
/// and leaves no more than a sixteenth of them.
pub open spec fn keeps_within(width: int, height: int, words: int) -> bool {
    &&& forall|x: int, y: int|
        #![trigger width * (4 * y) + 4 * x]
        0 <= x < width / 4 && 0 <= y < height / 4 ==> width * (4 * y) + 4 * x < words
    &&& width >= 4 && height >= 4 ==> width / 4 * (height / 4) <= words / 16
}

proof fn lemma_keeps_within(width: int, height: int, words: int)
    requires
        0 <= width,
        0 <= height,
    ensures
        decimate_fits((width, height), words, words / 16) == keeps_within(width, height, words),
{
    let nw = width / 4;
    let nh = height / 4;
    let last = width * (4 * (nh - 1)) + 4 * (nw - 1);
    assert(nh * nw == nw * nh) by (nonlinear_arith);
    assert((nh - 1) * 4 * width + (nw - 1) * 4 == last) by (nonlinear_arith)
        requires
            last == width * (4 * (nh - 1)) + 4 * (nw - 1),
    ;
    assert((nh - 1) * DECIM * width == (nh - 1) * 4 * width);
    assert forall|x: int, y: int|
        #![trigger width * (4 * y) + 4 * x]
        0 <= x < nw && 0 <= y < nh implies width * (4 * y) + 4 * x <= last by {
        assert(width * (4 * y) <= width * (4 * (nh - 1))) by (nonlinear_arith)
            requires
                0 <= width,
                y <= nh - 1,
        ;
    }
    if keeps_within(width, height, words) && width >= 4 && height >= 4 {
        let x = nw - 1;
        let y = nh - 1;
        assert(width * (4 * y) + 4 * x < words);
    }
}

/// An X-tiled framebuffer with ten bits for each channel is planned exactly where six divides its
/// size, and its rows and the image fit in memory. The words to map are all the bytes of its rows but
/// the few that fill no word.
pub proof fn lemma_xtiled_plan_is_exact(info: &FbInfo, r: Result<DumpPlan, DumpError>)
    requires
        call_ensures(plan_dump, (info,), r),
        info.pixel_format == 0x3033_5258 || info.pixel_format == 0x3033_5241,
        info.modifier@[0] == 0x0100_0000_0000_0001,
    ensures
        ({
            let bytes = info.pitches@[0] * info.height;
            let rest = info.pitches@[0] as int % 4 * info.height;
            let divides = info.width as int % 6 == 0 && info.height as int % 6 == 0;
            let too_large = bytes - rest > isize::MAX || 3 * (info.width as int / 6 * (
            info.height as int / 6)) > isize::MAX;
            match r {
                Ok(DumpPlan::IntelXtiled { handle, pitch, size, decim, words }) => {
                    &&& divides && !too_large
                    &&& handle == info.handles@[0]
                    &&& pitch == info.pitches@[0]
                    &&& size == (info.width, info.height)
                    &&& decim == 6
                    &&& 4 * words + rest == bytes
                },
                Ok(_) => false,
                Err(DumpError::Indivisible) => !divides,
                Err(DumpError::TooLarge) => divides && too_large,
                Err(_) => false,
            }
        }),
{
    lemma_image_fits(info.width as int / 6, info.height as int / 6);
    let p = info.pitches@[0] as int;
    let h = info.height as int;
    assert(4 * (p / 4 * h) + p % 4 * h == p * h && 0 <= p / 4 * h) by (nonlinear_arith)
        requires
            p == 4 * (p / 4) + p % 4,
            0 <= p / 4,
            0 <= h,
    ;
}

/// Where the pitch of a planned X-tiled framebuffer is whole tiles that cover its width, every pixel
/// that is kept, and whose band of eight rows is on the screen, lies within the words to map.
pub proof fn lemma_xtiled_plan_maps_screen(
    info: &FbInfo,
    plan: DumpPlan,
    x: int,
    y: int,
)
    requires
        call_ensures(plan_dump, (info,), Ok(plan)),
        info.pixel_format == 0x3033_5258 || info.pixel_format == 0x3033_5241,
        info.modifier@[0] == 0x0100_0000_0000_0001,
        info.pitches@[0] as int % 512 == 0,
        4 * info.width <= info.pitches@[0],
        0 <= x,
        6 * x < info.width,
        0 <= y,
        6 * y / 8 * 8 + 8 <= info.height,
    ensures
        plan matches DumpPlan::IntelXtiled { pitch, words, .. } && tile_word(
            pitch as int,
            6 * x,
            6 * y,
        ) < words,
{
    lemma_xtiled_plan_is_exact(info, Ok(plan));
    lemma_rows_hold_kept_pixels(info.pitches@[0], (info.width, info.height), 6, x, y);
    assert(info.pitches@[0] as int % 4 * info.height == 0) by (nonlinear_arith)
        requires
            info.pitches@[0] as int % 4 == 0,
    ;
}

/// Where moreover the height is whole bands of tiles, the words to map are long enough for the dump.
pub proof fn lemma_whole_xtiled_plan_is_readable(info: &FbInfo, plan: DumpPlan)
    requires
        call_ensures(plan_dump, (info,), Ok(plan)),
        info.pixel_format == 0x3033_5258 || info.pixel_format == 0x3033_5241,
        info.modifier@[0] == 0x0100_0000_0000_0001,
        info.pitches@[0] as int % 512 == 0,
        4 * info.width <= info.pitches@[0],
        info.height as int % 8 == 0,
    ensures
        plan matches DumpPlan::IntelXtiled { pitch, size, decim, words, .. } && xtiled_readable(
            words as int,
            tiles_per_pitch(pitch),
            size.0 as int / decim as int,
            size.1 as int / decim as int,
            decim as int,
        ),
{
    lemma_xtiled_plan_is_exact(info, Ok(plan));
    lemma_whole_tiles_readable(info.pitches@[0], (info.width, info.height), 6);
    let p = info.pitches@[0] as int;
    let h = info.height as int;
    assert(p % 4 * h == 0 && 4 * (p / 4 * h) == p * h) by (nonlinear_arith)
        requires
            p == 4 * (p / 4),
            p % 4 == 0,
    ;
}

/// A linear framebuffer with eight bits for each channel is planned exactly where the bytes of its rows
/// can be counted and fit in memory, and every pixel that is kept lies within them.
pub proof fn lemma_linear_plan_is_exact(info: &FbInfo, r: Result<DumpPlan, DumpError>)
    requires
        call_ensures(plan_dump, (info,), r),
        info.pixel_format == 0x3432_5258 || info.pixel_format == 0x3432_5241,
        info.modifier@[0] == 0,
    ensures
        ({
            let bytes = info.pitches@[0] * info.height;
            let too_large = bytes >= 0x1_0000_0000 || bytes / 4 * 4 > isize::MAX;
            let within = keeps_within(info.width as int, info.height as int, bytes / 4);
            match r {
                Ok(DumpPlan::Linear { handle, pitch, size, words }) => {
                    &&& !too_large && within
                    &&& handle == info.handles@[0]
                    &&& pitch == info.pitches@[0]
                    &&& size == (info.width, info.height)
                    &&& 4 * words <= bytes < 4 * words + 4
                },
                Ok(_) => false,
                Err(DumpError::TooLarge) => too_large,
                Err(DumpError::OutOfBounds) => !too_large && !within,
                Err(_) => false,
            }
        }),
{
    lemma_keeps_within(info.width as int, info.height as int, info.pitches@[0] * info.height / 4);
    assert(0 <= info.pitches@[0] * info.height) by (nonlinear_arith)
        requires
            0 <= info.pitches@[0],
            0 <= info.height,
    ;
}

/// The same holds of a framebuffer with ten bits for each channel and any layout but X-tiling.
pub proof fn lemma_linear_xr30_plan_is_exact(info: &FbInfo, r: Result<DumpPlan, DumpError>)
    requires
        call_ensures(plan_dump, (info,), r),
        info.pixel_format == 0x3033_5258 || info.pixel_format == 0x3033_5241,
        info.modifier@[0] != 0x0100_0000_0000_0001,
    ensures
        ({
            let bytes = info.pitches@[0] * info.height;
            let too_large = bytes >= 0x1_0000_0000 || bytes / 4 * 4 > isize::MAX;
            let within = keeps_within(info.width as int, info.height as int, bytes / 4);
            match r {
                Ok(DumpPlan::LinearXr30 { handle, pitch, size, words }) => {
                    &&& !too_large && within
                    &&& handle == info.handles@[0]
                    &&& pitch == info.pitches@[0]
                    &&& size == (info.width, info.height)
                    &&& 4 * words <= bytes < 4 * words + 4
                },
                Ok(_) => false,
                Err(DumpError::TooLarge) => too_large,
                Err(DumpError::OutOfBounds) => !too_large && !within,
                Err(_) => false,
            }
        }),
{
    lemma_keeps_within(info.width as int, info.height as int, info.pitches@[0] * info.height / 4);
    assert(0 <= info.pitches@[0] * info.height) by (nonlinear_arith)
        requires
            0 <= info.pitches@[0],
            0 <= info.height,
    ;
}

/// A VC4 tiled framebuffer is planned exactly where the bytes of its tiles can be counted and fit in
/// memory. The tiles are 32 pixels wide and high and cover the image with none to spare.
pub proof fn lemma_vc4_plan_is_exact(
    info: &FbInfo,
    r: Result<DumpPlan, DumpError>,
    across: int,
    down: int,
)
    requires
        call_ensures(plan_dump, (info,), r),
        info.pixel_format == 0x3432_5258 || info.pixel_format == 0x3432_5241,
        info.modifier@[0] == 0x0700_0000_0000_0001,
        32 * across - 32 < info.width <= 32 * across,
        32 * down - 32 < info.height <= 32 * down,
    ensures
        ({
            let bytes = 4 * (32 * across) * (32 * down);
            let too_large = bytes >= 0x1_0000_0000 || bytes > isize::MAX || info.width + 32
                >= 0x1_0000_0000 || info.height + 32 >= 0x1_0000_0000;
            match r {
                Ok(DumpPlan::Vc4Tiled { handle, size, layout }) => {
                    &&& !too_large
                    &&& handle == info.handles@[0]
                    &&& size == (info.width, info.height)
                    &&& layout.tilesize == 32
                    &&& layout.tiles.0 == across && layout.tiles.1 == down
                    &&& 4 * layout.words == bytes
                },
                Ok(_) => false,
                Err(DumpError::TooLarge) => too_large,
                Err(_) => false,
            }
        }),
{
    let size = (info.width, info.height);
    assert(across == tile_count(info.width as int) && down == tile_count(info.height as int));
    let n = across * down;
    assert(0 <= n) by (nonlinear_arith)
        requires
            0 <= across,
            0 <= down,
            n == across * down,
    ;
    assert(4 * (32 * across) * (32 * down) == 4096 * n && n * VC4_TILE * VC4_TILE * 4 == 4096 * n
        && n * VC4_TILE * VC4_TILE * 1 == 1024 * n) by (nonlinear_arith)
        requires
            n == across * down,
            VC4_TILE == 32,
    ;
    assert(tiled_bytes(size, 32) == 4096 * n);
    assert(tiled_bytes(size, 8) == 1024 * n);
}

/// A framebuffer with eight bits for each channel and any other layout is refused for that.
pub proof fn lemma_other_layouts_are_refused(info: &FbInfo, r: Result<DumpPlan, DumpError>)
    requires
        call_ensures(plan_dump, (info,), r),
        info.pixel_format == 0x3432_5258 || info.pixel_format == 0x3432_5241,
        info.modifier@[0] != 0,
        info.modifier@[0] != 0x0700_0000_0000_0001,
    ensures
        r == Err::<DumpPlan, DumpError>(
            DumpError::UnsupportedModifier { modifier: info.modifier@[0] },
        ),
{
}

/// A P030 frame is planned exactly where its modifier is that of SAND128, its words and its
/// image fit in memory, and every word that is read lies within the whole columns of the frame.
pub proof fn lemma_p030_plan_is_exact(info: &FbInfo, r: Result<DumpPlan, DumpError>, lines: int)
    requires
        call_ensures(plan_dump, (info,), r),
        info.pixel_format == 0x3033_3050,
        0 <= lines < 0x1_0000,
        info.modifier@[0] == 0x0700_0000_0000_0004 + 0x100 * lines,
    ensures
        ({
            let words = 32 * (lines * (info.width as int / 96));
            let too_large = 4 * words > isize::MAX || 3 * (info.width as int / 3 * (
            info.height as int / 3)) > isize::MAX;
            let within = p030_reads_within(
                words,
                (info.width as int, info.height as int),
                lines,
                info.offsets@[1] as int,
            );
            match r {
                Ok(DumpPlan::Sand { format, handle, size, modifier, offset, words: n }) => {
                    &&& !too_large && within
                    &&& format == SandFormat::P030
                    &&& handle == info.handles@[0]
                    &&& size.0 == info.width && size.1 == info.height
                    &&& modifier == info.modifier@[0]
                    &&& offset == info.offsets@[1]
                    &&& n == words
                },
                Ok(_) => false,
                Err(DumpError::TooLarge) => too_large,
                Err(DumpError::OutOfBounds) => !too_large && !within,
                Err(_) => false,
            }
        }),
{
    let m = info.modifier@[0];
    lemma_modifier_lines(m, lines);
    lemma_sand128_lines(m);
    assert(m == 0x0700_0000_0000_0004 + 0x100 * lines);
    assert(is_sand128(m));
    let columns = info.width as int / 96;
    let words = 32 * (lines * columns);
    assert(lines * columns * SAND_STRIDE == words);
    lemma_p030_readable(
        words,
        (info.width as int, info.height as int),
        m,
        lines,
        info.offsets@[1] as int,
    );
    lemma_image_fits(info.width as int / 3, info.height as int / 3);
    assert(0 <= lines * columns) by (nonlinear_arith)
        requires
            0 <= lines,
            0 <= columns,
    ;
}

/// A P030 frame whose modifier is not that of SAND128 is refused for that.
pub proof fn lemma_p030_without_sand128_is_refused(info: &FbInfo, r: Result<DumpPlan, DumpError>)
    requires
        call_ensures(plan_dump, (info,), r),
        info.pixel_format == 0x3033_3050,
        forall|lines: int|
            0 <= lines < 0x1_0000 ==> info.modifier@[0] != 0x0700_0000_0000_0004 + #[trigger] (0x100
                * lines),
    ensures
        r == Err::<DumpPlan, DumpError>(
            DumpError::NotSand128 { format: SandFormat::P030, modifier: info.modifier@[0] },
        ),
{
    lemma_sand128_lines(info.modifier@[0]);
}

/// An NV12 frame is planned exactly where its modifier is that of SAND128, its words and its
/// image fit in memory, and every word that is read lies within the whole columns of the frame.
pub proof fn lemma_nv12_plan_is_exact(info: &FbInfo, r: Result<DumpPlan, DumpError>, lines: int)
    requires
        call_ensures(plan_dump, (info,), r),
        info.pixel_format == 0x3231_564E,
        0 <= lines < 0x1_0000,
        info.modifier@[0] == 0x0700_0000_0000_0004 + 0x100 * lines,
    ensures
        ({
            let words = 32 * (lines * (info.width as int / 128));
            let too_large = 4 * words > isize::MAX || 3 * (info.width as int / 4 * (
            info.height as int / 4)) > isize::MAX;
            let within = nv12_reads_within(
                words,
                (info.width as int, info.height as int),
                lines,
                info.offsets@[1] as int,
            );
            match r {
                Ok(DumpPlan::Sand { format, handle, size, modifier, offset, words: n }) => {
                    &&& !too_large && within
                    &&& format == SandFormat::Nv12
                    &&& handle == info.handles@[0]
                    &&& size.0 == info.width && size.1 == info.height
                    &&& modifier == info.modifier@[0]
                    &&& offset == info.offsets@[1]
                    &&& n == words
                },
                Ok(_) => false,
                Err(DumpError::TooLarge) => too_large,
                Err(DumpError::OutOfBounds) => !too_large && !within,
                Err(_) => false,
            }
        }),
{
    let m = info.modifier@[0];
    lemma_modifier_lines(m, lines);
    lemma_sand128_lines(m);
    assert(m == 0x0700_0000_0000_0004 + 0x100 * lines);
    assert(is_sand128(m));
    let columns = info.width as int / 128;
    let words = 32 * (lines * columns);
    assert(lines * columns * SAND_STRIDE == words);
    lemma_nv12_readable(
        words,
        (info.width as int, info.height as int),
        m,
        lines,
        info.offsets@[1] as int,
    );
    lemma_image_fits(info.width as int / 4, info.height as int / 4);
    assert(0 <= lines * columns) by (nonlinear_arith)
        requires
            0 <= lines,
            0 <= columns,
    ;
}

/// An NV12 frame whose modifier is not that of SAND128 is refused for that.
pub proof fn lemma_nv12_without_sand128_is_refused(info: &FbInfo, r: Result<DumpPlan, DumpError>)
    requires
        call_ensures(plan_dump, (info,), r),
        info.pixel_format == 0x3231_564E,
        forall|lines: int|
            0 <= lines < 0x1_0000 ==> info.modifier@[0] != 0x0700_0000_0000_0004 + #[trigger] (0x100
                * lines),
    ensures
        r == Err::<DumpPlan, DumpError>(
            DumpError::NotSand128 { format: SandFormat::Nv12, modifier: info.modifier@[0] },
        ),
{
    lemma_sand128_lines(info.modifier@[0]);
}

/// A planar framebuffer is planned exactly where its planes are in order and fit in memory, and is
/// read up to the end of the last.
pub proof fn lemma_yuv420_plan_is_exact(info: &FbInfo, r: Result<DumpPlan, DumpError>)
    requires
        call_ensures(plan_dump, (info,), r),
        info.pixel_format == 0x3231_5559,
    ensures
        ({
            let in_order = planes_stop_in_order(info.height, info.pitches@, info.offsets@);
            let stop = plane_stop(
                info.height,
                info.pitches@[0],
                info.pitches@[2],
                info.offsets@[2],
            );
            match r {
                Ok(DumpPlan::Yuv420 { handle, size, pitches, offsets, bytes }) => {
                    &&& in_order && stop <= isize::MAX
                    &&& handle == info.handles@[0]
                    &&& size == (info.width, info.height)
                    &&& pitches == info.pitches && offsets == info.offsets
                    &&& bytes == stop
                },
                Ok(_) => false,
                Err(DumpError::BadPlanes) => !in_order,
                Err(DumpError::TooLarge) => in_order && stop > isize::MAX,
                Err(_) => false,
            }
        }),
{
    lemma_planes_stop(info.height, info.pitches@, info.offsets@);
    let end = plane_end(info.height, info.pitches@, info.offsets@, 2);
    if planes_in_order(info.height, info.pitches@, info.offsets@) {
        lemma_plane_starts(info.height, info.pitches@, info.offsets@, 2);
        assert(0 <= end <= u32::MAX);
    }
}

/// An RGB565 framebuffer is planned exactly where the bytes of its rows can be counted and fit in
/// memory, and all of them are read, two at a time.
pub proof fn lemma_rgb565_plan_is_exact(info: &FbInfo, r: Result<DumpPlan, DumpError>)
    requires
        call_ensures(plan_dump, (info,), r),
        info.pixel_format == 0x3631_4752,
    ensures
        ({
            let bytes = info.pitches@[0] * info.height;
            let too_large = bytes >= 0x1_0000_0000 || bytes > isize::MAX;
            match r {
                Ok(DumpPlan::Rgb565 { handle, pitch, size, halfwords }) => {
                    &&& !too_large
                    &&& handle == info.handles@[0]
                    &&& pitch == info.pitches@[0]
                    &&& size == (info.width, info.height)
                    &&& 2 * halfwords <= bytes < 2 * halfwords + 2
                },
                Ok(_) => false,
                Err(DumpError::TooLarge) => too_large,
                Err(_) => false,
            }
        }),
{
    assert(0 <= info.pitches@[0] * info.height) by (nonlinear_arith)
        requires
            0 <= info.pitches@[0],
            0 <= info.height,
    ;
}

/// Any other format is refused, under its own code.
pub proof fn lemma_other_formats_are_refused(info: &FbInfo, r: Result<DumpPlan, DumpError>)
    requires
        call_ensures(plan_dump, (info,), r),
        info.pixel_format != 0x3432_5258 && info.pixel_format != 0x3432_5241,
        info.pixel_format != 0x3033_5258 && info.pixel_format != 0x3033_5241,
        info.pixel_format != 0x3231_5559 && info.pixel_format != 0x3631_4752,
        info.pixel_format != 0x3231_564E && info.pixel_format != 0x3033_3050,
    ensures
        r == Err::<DumpPlan, DumpError>(DumpError::UnrecognizedFormat { code: info.pixel_format })
            || r == Err::<DumpPlan, DumpError>(
            DumpError::UnsupportedFormat { code: info.pixel_format },
        ),
{
}

/// The plan for a framebuffer is that for its format, and a format that is not listed or has no
/// decoder is refused as such, whatever else is reported.
pub proof fn lemma_format_settles_plan(
    info: &FbInfo,
    r: Result<DumpPlan, DumpError>,
    format: Option<Fourcc>,
    s: Result<DumpPlan, DumpError>,
)
    requires
        call_ensures(plan_dump, (info,), r),
        call_ensures(plan_format, (format, info), s),
    ensures
        info.pixel_format == 0x3432_5258 && format == Some(Fourcc::Xrgb8888) ==> r == s,
        info.pixel_format == 0x3432_5241 && format == Some(Fourcc::Argb8888) ==> r == s,
        info.pixel_format == 0x3033_5258 && format == Some(Fourcc::Xrgb2101010) ==> r == s,
        info.pixel_format == 0x3033_5241 && format == Some(Fourcc::Argb2101010) ==> r == s,
        info.pixel_format == 0x3231_5559 && format == Some(Fourcc::Yuv420) ==> r == s,
        info.pixel_format == 0x3631_4752 && format == Some(Fourcc::Rgb565) ==> r == s,
        info.pixel_format == 0x3231_564E && format == Some(Fourcc::Nv12) ==> r == s,
        format is None ==> s == Err::<DumpPlan, DumpError>(
            DumpError::UnrecognizedFormat { code: info.pixel_format },
        ),
        format == Some(Fourcc::Other) ==> s == Err::<DumpPlan, DumpError>(
            DumpError::UnsupportedFormat { code: info.pixel_format },
        ),
{
}

/// The handle of a framebuffer is closed after its dump, unless it is a P030 frame.
pub proof fn lemma_handles_are_closed(info: &FbInfo, plan: DumpPlan, closes: bool)
    requires
        call_ensures(plan_dump, (info,), Ok(plan)),
        call_ensures(DumpPlan::closes_handle, (&plan,), closes),
    ensures
        closes == (info.pixel_format != 0x3033_3050),
{
}

/// A failure to close a handle is passed over exactly where the device says that the handle is invalid
/// or that there is none.
pub proof fn lemma_only_gone_handles_are_passed_over(e: CloseError, reports: bool)
    requires
        call_ensures(reports_close_error, (e,), reports),
    ensures
        match e {
            CloseError::InvalidArgument => !reports,
            CloseError::Unknown { errno } => reports == (errno != 2),
            CloseError::Other => reports,
        },
{
}

/// A plan for a SAND128 frame can be carried out: with as many words as it names, the frame can be
/// decoded.
pub proof fn lemma_sand_plan_can_be_decoded(info: &FbInfo, plan: DumpPlan, plane: &[u32])
    requires
        call_ensures(plan_dump, (info,), Ok(plan)),
        plan is Sand,
        plane@.len() == plan->Sand_words,
    ensures
        plan->Sand_format == SandFormat::P030 ==> call_requires(
            decode_p030_image,
            (plane, plan->Sand_size, plan->Sand_modifier, plan->Sand_offset),
        ),
        plan->Sand_format == SandFormat::Nv12 ==> call_requires(
            decode_nv12_image,
            (plane, plan->Sand_size, plan->Sand_modifier, plan->Sand_offset),
        ),
{
}

/// A plan for a linear framebuffer can be carried out: with as many words as it names, the framebuffer
/// can be thinned.
pub proof fn lemma_linear_plan_can_be_decoded(
    info: &FbInfo,
    plan: DumpPlan,
    buffer: &[u32],
    owned: Vec<u32>,
)
    requires
        call_ensures(plan_dump, (info,), Ok(plan)),
    ensures
        plan matches DumpPlan::Linear { pitch, size, words, .. } ==> buffer@.len() == words
            ==> call_requires(dump_linear_to_image, (buffer, pitch, size)),
        plan matches DumpPlan::LinearXr30 { pitch, size, words, .. } ==> owned@.len() == words
            ==> call_requires(dump_linear_xr30_to_image, (owned, pitch, size)),
{
}

/// A plan for an X-tiled framebuffer can be carried out with any mapping that is long enough.
pub proof fn lemma_xtiled_plan_can_be_decoded(
    info: &FbInfo,
    plan: DumpPlan,
    src: &[u32],
    len: usize,
)
    requires
        call_ensures(plan_dump, (info,), Ok(plan)),
        plan is IntelXtiled,
        src@.len() == len,
        call_ensures(
            xtiled_fits,
            (len, plan->IntelXtiled_pitch, plan->IntelXtiled_size, plan->IntelXtiled_decim),
            true,
        ),
    ensures
        call_requires(
            dump_intel_xtiled_xr30_decimated_to_image,
            (
                src,
                plan->IntelXtiled_pitch,
                plan->IntelXtiled_size,
                plan->IntelXtiled_decim,
            ),
        ),
{
}

/// A plan for a planar framebuffer can be carried out: with as many bytes as it names, the framebuffer
/// can be cut into its planes.
pub proof fn lemma_yuv420_plan_can_be_decoded(info: &FbInfo, plan: DumpPlan, buffer: &[u8])
    requires
        call_ensures(plan_dump, (info,), Ok(plan)),
        plan is Yuv420,
        buffer@.len() == plan->Yuv420_bytes,
    ensures
        call_requires(
            dump_yuv420_to_image,
            (buffer, plan->Yuv420_size, plan->Yuv420_pitches, plan->Yuv420_offsets),
        ),
{
    lemma_plans_are_decodable(*info);
}

} // verus!
