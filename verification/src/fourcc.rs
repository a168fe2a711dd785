//! Pixel format codes and format modifiers, as the `drm-fourcc` crate names them.

use drm_fourcc::{DrmFourcc, DrmModifier};
use vstd::prelude::*;

verus! {

/// The modifier of Broadcom's SAND128 column layout, with no column height in it.
pub const SAND128: u64 = 504403158265495556;

/// Calls `u64::from` on `drm_fourcc::DrmModifier::Broadcom_sand128`, which gives that modifier's
/// code.
#[verifier::external_body]
pub(crate) fn sand128_code() -> (r: u64)
    ensures
        r == SAND128,
{
    u64::from(DrmModifier::Broadcom_sand128)
}

/// The code of XRGB8888 ("XR24").
pub const XRGB8888: u32 = 875713112;

/// The code of ARGB8888 ("AR24").
pub const ARGB8888: u32 = 875713089;

/// The code of XRGB2101010 ("XR30").
pub const XRGB2101010: u32 = 808669784;

/// The code of ARGB2101010 ("AR30").
pub const ARGB2101010: u32 = 808669761;

/// The code of planar YUV 4:2:0 ("YU12").
pub const YUV420: u32 = 842093913;

/// The code of RGB565 ("RG16").
pub const RGB565: u32 = 909199186;

/// The code of NV12 ("NV12").
pub const NV12: u32 = 842094158;

/// The code of the ten-bit SAND format ("P030"), which `drm-fourcc` does not list.
pub const P030: u32 = 808661072;

/// The modifier of the Broadcom VC4 tiled layout.
pub const VC4_T_TILED: u64 = 504403158265495553;

/// The modifier of the Intel X-tiled layout.
pub const INTEL_X_TILED: u64 = 72057594037927937;

/// A pixel format that DRM lists.
#[derive(Clone, Copy, Debug, PartialEq, Eq, Structural)]
pub enum Fourcc {
    Xrgb8888,
    Argb8888,
    Xrgb2101010,
    Argb2101010,
    Yuv420,
    Rgb565,
    Nv12,
    /// Any of the other formats.
    Other,
}

/// How the pixels of a framebuffer are laid out.
#[derive(Clone, Copy, Debug, PartialEq, Eq, Structural)]
pub enum Modifier {
    Linear,
    Vc4TTiled,
    /// Any of the other layouts.
    Other,
}

/// Whether `drm_fourcc::DrmFourcc` has a format with this code.
pub uninterp spec fn recognized_fourcc(code: u32) -> bool;

/// The format with a code that DRM lists.
pub open spec fn fourcc_of(code: u32) -> Fourcc {
    if code == XRGB8888 {
        Fourcc::Xrgb8888
    } else if code == ARGB8888 {
        Fourcc::Argb8888
    } else if code == XRGB2101010 {
        Fourcc::Xrgb2101010
    } else if code == ARGB2101010 {
        Fourcc::Argb2101010
    } else if code == YUV420 {
        Fourcc::Yuv420
    } else if code == RGB565 {
        Fourcc::Rgb565
    } else if code == NV12 {
        Fourcc::Nv12
    } else {
        Fourcc::Other
    }
}

/// The format that a code stands for, or nothing where DRM lists none.
pub open spec fn format_of(code: u32) -> Option<Fourcc> {
    if recognized_fourcc(code) {
        Some(fourcc_of(code))
    } else {
        None
    }
}

/// The layout with a given modifier.
pub open spec fn modifier_of(code: u64) -> Modifier {
    if code == 0 {
        Modifier::Linear
    } else if code == VC4_T_TILED {
        Modifier::Vc4TTiled
    } else {
        Modifier::Other
    }
}

/// Calls `drm_fourcc::DrmFourcc::try_from`, which finds the format with the given code in a table
/// of all formats. Those that are told apart here are in it, each under its own code.
#[verifier::external_body]
pub(crate) fn parse_fourcc(code: u32) -> (r: Option<Fourcc>)
    ensures
        (r is Some) == recognized_fourcc(code),
        r is Some ==> r == Some(fourcc_of(code)),
        fourcc_of(code) != Fourcc::Other ==> r is Some,
{
    DrmFourcc::try_from(code).ok().map(|format| match format {
        DrmFourcc::Xrgb8888 => Fourcc::Xrgb8888,
        DrmFourcc::Argb8888 => Fourcc::Argb8888,
        DrmFourcc::Xrgb2101010 => Fourcc::Xrgb2101010,
        DrmFourcc::Argb2101010 => Fourcc::Argb2101010,
        DrmFourcc::Yuv420 => Fourcc::Yuv420,
        DrmFourcc::Rgb565 => Fourcc::Rgb565,
        DrmFourcc::Nv12 => Fourcc::Nv12,
        _ => Fourcc::Other,
    })
}

/// Calls `drm_fourcc::DrmModifier::from`, which finds the layout with the given modifier in a
/// table and takes any other modifier as unrecognized.
#[verifier::external_body]
pub(crate) fn parse_modifier(code: u64) -> (r: Modifier)
    ensures
        r == modifier_of(code),
{
    match DrmModifier::from(code) {
        DrmModifier::Linear => Modifier::Linear,
        DrmModifier::Broadcom_vc4_t_tiled => Modifier::Vc4TTiled,
        _ => Modifier::Other,
    }
}

} // verus!
