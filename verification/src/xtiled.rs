//! Intel X-tiled XR30 framebuffers, untiled and thinned out in one pass.

use crate::downscale::{is_downscale, lemma_grid_inside};
use crate::pixel::{are_nearest, rgb8, ten_to_eight};
use crate::rgb_image::{image_fits, pixel_offset, rgb_bytes, rgb_size, RgbImage};
use vstd::arithmetic::div_mod::{
    lemma_div_denominator, lemma_fundamental_div_mod, lemma_fundamental_div_mod_converse,
};
use vstd::prelude::*;

verus! {

/// Pixels across a tile.
pub const TILE_W: usize = 128;

/// Rows in a tile.
pub const TILE_H: usize = 8;

/// Words in a tile.
pub const TILE_WORDS: usize = 1024;

/// Where the pixel at column `x` and row `y` lies in a buffer whose tiles stand side by side,
/// `tiles_per_pitch` to a band: tile by tile, and row by row within a tile.
pub open spec fn xtiled_index(tiles_per_pitch: int, x: int, y: int) -> int {
    (y / TILE_H as int * tiles_per_pitch + x / TILE_W as int) * TILE_WORDS + y % TILE_H as int
        * TILE_W + x % TILE_W as int
}

/// Whether every pixel that thinning by `decim` keeps lies within `len` words.
pub open spec fn xtiled_readable(
    len: int,
    tiles_per_pitch: int,
    dst_w: int,
    dst_h: int,
    decim: int,
) -> bool {
    forall|dx: int, dy: int|
        0 <= dx < dst_w && 0 <= dy < dst_h ==> #[trigger] xtiled_index(
            tiles_per_pitch,
            dx * decim,
            dy * decim,
        ) < len
}

/// Whether the three samples of `dst` from `at` on are those of an XR30 word.
pub open spec fn holds_rgb8(dst: Seq<u8>, at: int, word: u32) -> bool {
    (dst[at] as int, dst[at + 1] as int, dst[at + 2] as int) == rgb8(word)
}

/// Whether the pixels of row `dy` that stem from columns before `x_end` are in place.
spec fn row_done(
    dst: Seq<u8>,
    dst_w: int,
    src: Seq<u32>,
    tpp: int,
    decim: int,
    dy: int,
    x_end: int,
) -> bool {
    forall|dx: int|
        0 <= dx < dst_w && dx * decim < x_end ==> #[trigger] holds_rgb8(
            dst,
            pixel_offset(dst_w, dx, dy),
            src[xtiled_index(tpp, dx * decim, dy * decim)],
        )
}

/// Distinct pixels of an image have disjoint samples.
proof fn lemma_pixels_apart(w: int, x1: int, y1: int, x2: int, y2: int)
    requires
        0 <= x1 < w,
        0 <= x2 < w,
        x1 != x2 || y1 != y2,
    ensures
        pixel_offset(w, x1, y1) + 3 <= pixel_offset(w, x2, y2) || pixel_offset(w, x2, y2) + 3
            <= pixel_offset(w, x1, y1),
{
    if y1 < y2 {
        assert(y1 * w + w <= y2 * w) by (nonlinear_arith)
            requires
                y1 + 1 <= y2,
                0 < w,
        ;
    } else if y2 < y1 {
        assert(y2 * w + w <= y1 * w) by (nonlinear_arith)
            requires
                y2 + 1 <= y1,
                0 < w,
        ;
    }
}

/// The samples of a pixel lie within an image.
proof fn lemma_pixel_inside(w: int, h: int, x: int, y: int)
    requires
        0 <= x < w,
        0 <= y < h,
    ensures
        0 <= y * w,
        0 <= pixel_offset(w, x, y),
        pixel_offset(w, x, y) + 3 <= w * h * 3,
{
    assert(0 <= y * w && y * w + w <= h * w) by (nonlinear_arith)
        requires
            0 <= y,
            y + 1 <= h,
            0 < w,
    ;
    assert(h * w == w * h) by (nonlinear_arith);
}

/// Between a column that is no multiple of `decim` and the next multiple there is no other.
proof fn lemma_next_multiple(decim: int, next: int, dx: int)
    requires
        decim > 0,
        next % decim != 0,
        dx * decim < next + decim - next % decim,
    ensures
        dx * decim < next,
{
    let q = next / decim;
    lemma_fundamental_div_mod(next, decim);
    assert(dx <= q) by (nonlinear_arith)
        requires
            dx * decim < decim * q + decim,
            decim > 0,
    ;
    assert(dx * decim <= decim * q) by (nonlinear_arith)
        requires
            dx <= q,
            decim > 0,
    ;
}

/// Writes row `src_y / decim` of the thinned image.
fn decimate_row(
    src: &[u32],
    tiles_per_pitch: usize,
    width: usize,
    src_y: usize,
    decim: usize,
    dst_w: usize,
    Ghost(dst_h): Ghost<int>,
    dst: &mut Vec<u8>,
)
    requires
        decim > 0,
        dst_w * decim == width,
        src_y % decim == 0,
        (src_y as int / decim as int) < dst_h,
        xtiled_readable(src@.len() as int, tiles_per_pitch as int, dst_w as int, dst_h, decim as int),
        old(dst)@.len() == dst_w * dst_h * 3,
    ensures
        final(dst)@.len() == old(dst)@.len(),
        row_done(
            final(dst)@,
            dst_w as int,
            src@,
            tiles_per_pitch as int,
            decim as int,
            src_y as int / decim as int,
            width as int,
        ),
        forall|x: int, y: int, c: int|
            0 <= x < dst_w && 0 <= y < dst_h && y != src_y as int / decim as int && 0 <= c < 3
                ==> #[trigger] final(dst)@[pixel_offset(dst_w as int, x, y) + c] == old(
                dst,
            )@[pixel_offset(dst_w as int, x, y) + c],
{
    let dst_y: usize = src_y / decim;
    let tiles_x: usize = width / TILE_W + if width % TILE_W == 0 { 0 } else { 1 };
    let len: usize = src.len();
    let total: usize = dst.len();
    let mut tx: usize = 0;
    while tx < tiles_x
        invariant
            tx <= tiles_x,
            len == src@.len(),
            total == dst@.len(),
            decim > 0,
            dst_w * decim == width,
            src_y % decim == 0,
            dst_y == src_y / decim,
            dst_y < dst_h,
            tiles_x == width / TILE_W + if width % TILE_W == 0 { 0int } else { 1int },
            xtiled_readable(
                src@.len() as int,
                tiles_per_pitch as int,
                dst_w as int,
                dst_h,
                decim as int,
            ),
            dst@.len() == dst_w * dst_h * 3,
            dst@.len() == old(dst)@.len(),
            row_done(
                dst@,
                dst_w as int,
                src@,
                tiles_per_pitch as int,
                decim as int,
                dst_y as int,
                tx * TILE_W,
            ),
            forall|x: int, y: int, c: int|
                0 <= x < dst_w && 0 <= y < dst_h && y != dst_y && 0 <= c < 3
                    ==> #[trigger] dst@[pixel_offset(dst_w as int, x, y) + c] == old(
                    dst,
                )@[pixel_offset(dst_w as int, x, y) + c],
        decreases tiles_x - tx,
    {
        let tile_x0: usize = tx * TILE_W;
        let run: usize = if width - tile_x0 < TILE_W {
            width - tile_x0
        } else {
            TILE_W
        };
        let mut x: usize = 0;
        while x < run
            invariant
                x <= run,
                run <= TILE_W,
                tile_x0 == tx * TILE_W,
                tile_x0 + run <= width,
                run == TILE_W || tile_x0 + run == width,
                len == src@.len(),
                total == dst@.len(),
                decim > 0,
                dst_w * decim == width,
                src_y % decim == 0,
                dst_y == src_y / decim,
                dst_y < dst_h,
                xtiled_readable(
                    src@.len() as int,
                    tiles_per_pitch as int,
                    dst_w as int,
                    dst_h,
                    decim as int,
                ),
                dst@.len() == dst_w * dst_h * 3,
                dst@.len() == old(dst)@.len(),
                row_done(
                    dst@,
                    dst_w as int,
                    src@,
                    tiles_per_pitch as int,
                    decim as int,
                    dst_y as int,
                    tile_x0 + x,
                ),
                forall|x: int, y: int, c: int|
                    0 <= x < dst_w && 0 <= y < dst_h && y != dst_y && 0 <= c < 3
                        ==> #[trigger] dst@[pixel_offset(dst_w as int, x, y) + c] == old(
                        dst,
                    )@[pixel_offset(dst_w as int, x, y) + c],
            decreases run - x,
        {
            let src_x: usize = tile_x0 + x;
            let ghost before = dst@;
            if src_x % decim == 0 {
                let dst_x: usize = src_x / decim;
                proof {
                    lemma_fundamental_div_mod(src_x as int, decim as int);
                    lemma_fundamental_div_mod(src_y as int, decim as int);
                    assert(dst_x * decim == src_x && dst_y * decim == src_y) by (nonlinear_arith)
                        requires
                            src_x == decim * dst_x,
                            src_y == decim * dst_y,
                    ;
                    assert(dst_x < dst_w) by (nonlinear_arith)
                        requires
                            dst_x * decim < dst_w * decim,
                            decim > 0,
                    ;
                    lemma_pixel_inside(dst_w as int, dst_h, dst_x as int, dst_y as int);
                    assert(xtiled_index(
                        tiles_per_pitch as int,
                        dst_x * decim,
                        dst_y * decim,
                    ) < len);
                    assert(src_x / TILE_W == tx && src_x % TILE_W == x);
                    lemma_tile_words(
                        src_y as int / TILE_H as int,
                        tiles_per_pitch as int,
                        tx as int,
                    );
                }
                let at: usize = (src_y / TILE_H * tiles_per_pitch + tx) * TILE_WORDS + src_y
                    % TILE_H * TILE_W + x;
                let (r8, g8, b8) = ten_to_eight(src[at]);
                let di: usize = (dst_y * dst_w + dst_x) * 3;
                dst[di] = r8 as u8;
                dst[di + 1] = g8 as u8;
                dst[di + 2] = b8 as u8;
                proof {
                    assert(di == pixel_offset(dst_w as int, dst_x as int, dst_y as int));
                    assert forall|dx: int|
                        0 <= dx < dst_w && dx * decim < src_x
                            + 1 implies #[trigger] holds_rgb8(
                        dst@,
                        pixel_offset(dst_w as int, dx, dst_y as int),
                        src@[xtiled_index(
                            tiles_per_pitch as int,
                            dx * decim,
                            dst_y * decim,
                        )],
                    ) by {
                        if dx == dst_x {
                        } else {
                            assert(dx * decim != dst_x * decim) by (nonlinear_arith)
                                requires
                                    dx != dst_x,
                                    decim > 0,
                            ;
                            assert(holds_rgb8(
                                before,
                                pixel_offset(dst_w as int, dx, dst_y as int),
                                src@[xtiled_index(
                                    tiles_per_pitch as int,
                                    dx * decim,
                                    dst_y * decim,
                                )],
                            ));
                            lemma_pixel_inside(dst_w as int, dst_h, dx, dst_y as int);
                            lemma_pixels_apart(
                                dst_w as int,
                                dx,
                                dst_y as int,
                                dst_x as int,
                                dst_y as int,
                            );
                        }
                    }
                    assert forall|x: int, y: int, c: int|
                        0 <= x < dst_w && 0 <= y < dst_h && y != dst_y && 0 <= c
                            < 3 implies #[trigger] dst@[pixel_offset(dst_w as int, x, y) + c]
                        == old(dst)@[pixel_offset(dst_w as int, x, y) + c] by {
                        lemma_pixel_inside(dst_w as int, dst_h, x, y);
                        lemma_pixels_apart(dst_w as int, x, y, dst_x as int, dst_y as int);
                        assert(before[pixel_offset(dst_w as int, x, y) + c] == old(
                            dst,
                        )@[pixel_offset(dst_w as int, x, y) + c]);
                    }
                }
            } else {
                proof {
                    assert forall|dx: int|
                        0 <= dx < dst_w && dx * decim < src_x
                            + 1 implies #[trigger] holds_rgb8(
                        dst@,
                        pixel_offset(dst_w as int, dx, dst_y as int),
                        src@[xtiled_index(
                            tiles_per_pitch as int,
                            dx * decim,
                            dst_y * decim,
                        )],
                    ) by {
                        if dx * decim == src_x {
                            lemma_fundamental_div_mod_converse(
                                src_x as int,
                                decim as int,
                                dx,
                                0,
                            );
                        }
                    }
                }
            }
            // To the next column on the grid, or to the end of the run.
            let past: usize = (src_x + 1) % decim;
            let step: usize = if past == 0 {
                1
            } else {
                decim - past + 1
            };
            proof {
                if past != 0 {
                    assert forall|dx: int|
                        0 <= dx < dst_w && dx * decim < src_x
                            + step implies #[trigger] holds_rgb8(
                        dst@,
                        pixel_offset(dst_w as int, dx, dst_y as int),
                        src@[xtiled_index(
                            tiles_per_pitch as int,
                            dx * decim,
                            dst_y * decim,
                        )],
                    ) by {
                        lemma_next_multiple(decim as int, src_x + 1, dx);
                    }
                }
            }
            x = if step < run - x {
                x + step
            } else {
                run
            };
        }
        proof {
            assert forall|dx: int| 0 <= dx < dst_w implies #[trigger] (dx * decim) < width by {
                assert(dx * decim < dst_w * decim) by (nonlinear_arith)
                    requires
                        dx < dst_w,
                        decim > 0,
                ;
            }
        }
        tx += 1;
    }
}

/// A partial product of a tile's address is no larger than the address.
proof fn lemma_tile_words(ty: int, tpp: int, tx: int)
    requires
        0 <= ty,
        0 <= tpp,
        0 <= tx,
    ensures
        0 <= ty * tpp,
        ty * tpp + tx <= (ty * tpp + tx) * TILE_WORDS,
{
    assert(0 <= ty * tpp) by (nonlinear_arith)
        requires
            0 <= ty,
            0 <= tpp,
    ;
}

/// Tiles that stand side by side in a band of a buffer with `pitch` bytes to a row.
pub open spec fn tiles_per_pitch(pitch: u32) -> int {
    pitch as int / (TILE_W * 4)
}

/// Whether `img` is the X-tiled XR30 buffer `src` with only every `decim`-th pixel of every
/// `decim`-th row kept, in eight bits for each channel.
pub open spec fn is_xtiled_decimation(
    src: Seq<u32>,
    pitch: u32,
    size: (u32, u32),
    decim: int,
    img: RgbImage,
) -> bool {
    &&& img.spec_width() == size.0 as int / decim
    &&& img.spec_height() == size.1 as int / decim
    &&& rgb_bytes(img).len() == img.spec_width() * img.spec_height() * 3
    &&& forall|x: int, y: int|
        0 <= x < img.spec_width() && 0 <= y < img.spec_height() ==> #[trigger] holds_rgb8(
            rgb_bytes(img),
            pixel_offset(img.spec_width(), x, y),
            src[xtiled_index(tiles_per_pitch(pitch), x * decim, y * decim)],
        )
}

/// Whether every pixel that thinning by `decim` keeps lies within a buffer of `len` words.
pub fn xtiled_fits(len: usize, pitch: u32, size: (u32, u32), decim: usize) -> (r: bool)
    requires
        decim > 0,
    ensures
        r == xtiled_readable(
            len as int,
            tiles_per_pitch(pitch),
            size.0 as int / decim as int,
            size.1 as int / decim as int,
            decim as int,
        ),
{
    let dst_w: u64 = size.0 as u64 / decim as u64;
    let dst_h: u64 = size.1 as u64 / decim as u64;
    if dst_w == 0 {
        return true;
    }
    let tpp: u64 = pitch as u64 / 512;
    proof {
        lemma_grid_inside(size.0 as int, decim as int, dst_w - 1);
    }
    let last_x: u64 = (dst_w - 1) * decim as u64;
    let mut dy: u64 = 0;
    while dy < dst_h
        invariant
            dy <= dst_h,
            decim > 0,
            dst_w > 0,
            dst_w == size.0 as int / decim as int,
            dst_h == size.1 as int / decim as int,
            last_x == (dst_w - 1) * decim,
            last_x <= u32::MAX,
            tpp == tiles_per_pitch(pitch),
            tpp <= 0x80_0000,
            forall|dx: int, y: int|
                0 <= dx < dst_w && 0 <= y < dy ==> #[trigger] xtiled_index(
                    tpp as int,
                    dx * decim,
                    y * decim,
                ) < len,
        decreases dst_h - dy,
    {
        proof {
            lemma_grid_inside(size.1 as int, decim as int, dy as int);
        }
        let y: u64 = dy * decim as u64;
        assert(y / 8 * tpp <= 0x2000_0000 * 0x80_0000) by (nonlinear_arith)
            requires
                y <= u32::MAX,
                tpp <= 0x80_0000,
        ;
        let at: u64 = (y / 8 * tpp + last_x / 128) * 1024 + y % 8 * 128 + last_x % 128;
        assert(at == xtiled_index(tpp as int, (dst_w - 1) * decim, dy * decim));
        if at >= len as u64 {
            return false;
        }
        proof {
            assert forall|dx: int, v: int|
                0 <= dx < dst_w && 0 <= v < dy + 1 implies #[trigger] xtiled_index(
                tpp as int,
                dx * decim,
                v * decim,
            ) < len by {
                if v == dy {
                    assert(0 <= dx * decim <= (dst_w - 1) * decim) by (nonlinear_arith)
                        requires
                            0 <= dx <= dst_w - 1,
                            decim > 0,
                    ;
                }
            }
        }
        dy += 1;
    }
    true
}

/// The words of a framebuffer of `height` rows with `pitch` bytes each.
pub fn xtiled_length_words(pitch: u32, height: u32) -> (r: usize)
    requires
        pitch as int / 4 * height <= usize::MAX,
    ensures
        r == pitch as int / 4 * height,
{
    pitch as usize / 4 * height as usize
}

/// Untiles an Intel X-tiled XR30 framebuffer and thins it by `decim` in both directions.
///
/// `decim` is at least two and divides both dimensions, the pixels that are kept lie within
/// `src`, and the samples of the image fit in memory.
pub fn dump_intel_xtiled_xr30_decimated_to_image(
    src: &[u32],
    pitch: u32,
    size: (u32, u32),
    decim: usize,
) -> (img: RgbImage)
    requires
        decim >= 2,
        size.0 as int % decim as int == 0,
        size.1 as int % decim as int == 0,
        xtiled_readable(
            src@.len() as int,
            tiles_per_pitch(pitch),
            size.0 as int / decim as int,
            size.1 as int / decim as int,
            decim as int,
        ),
        image_fits(size.0 as int / decim as int, size.1 as int / decim as int),
    ensures
        is_xtiled_decimation(src@, pitch, size, decim as int, img),
{
    let width: usize = size.0 as usize;
    let height: usize = size.1 as usize;
    let dst_w: usize = width / decim;
    let dst_h: usize = height / decim;
    let tiles_y: usize = height / TILE_H + if height % TILE_H == 0 { 0 } else { 1 };
    let tpp: usize = pitch as usize / (TILE_W * 4);
    proof {
        lemma_fundamental_div_mod(width as int, decim as int);
        lemma_fundamental_div_mod(height as int, decim as int);
        assert(dst_w * decim == width && dst_h * decim == height) by (nonlinear_arith)
            requires
                width == decim * dst_w,
                height == decim * dst_h,
        ;
        assert(0 <= dst_w * dst_h && dst_w * dst_h * 3 == 3 * dst_w * dst_h) by (nonlinear_arith)
            requires
                0 <= dst_w,
                0 <= dst_h,
        ;
    }
    let mut dst: Vec<u8> = vec![0u8; dst_w * dst_h * 3];
    let mut ty: usize = 0;
    while ty < tiles_y
        invariant
            ty <= tiles_y,
            decim > 0,
            dst_w * decim == width,
            dst_h * decim == height,
            tpp == tiles_per_pitch(pitch),
            tiles_y == height / TILE_H + if height % TILE_H == 0 { 0int } else { 1int },
            xtiled_readable(src@.len() as int, tpp as int, dst_w as int, dst_h as int, decim as int),
            dst@.len() == dst_w * dst_h * 3,
            rows_done(
                dst@,
                dst_w as int,
                dst_h as int,
                src@,
                tpp as int,
                decim as int,
                ty * TILE_H,
            ),
        decreases tiles_y - ty,
    {
        let tile_y0: usize = ty * TILE_H;
        let rows: usize = if height - tile_y0 < TILE_H {
            height - tile_y0
        } else {
            TILE_H
        };
        let mut y: usize = 0;
        while y < rows
            invariant
                y <= rows,
                rows <= TILE_H,
                tile_y0 == ty * TILE_H,
                tile_y0 + rows <= height,
                rows == TILE_H || tile_y0 + rows == height,
                decim > 0,
                dst_w * decim == width,
                dst_h * decim == height,
                tpp == tiles_per_pitch(pitch),
                xtiled_readable(
                    src@.len() as int,
                    tpp as int,
                    dst_w as int,
                    dst_h as int,
                    decim as int,
                ),
                dst@.len() == dst_w * dst_h * 3,
                rows_done(
                    dst@,
                    dst_w as int,
                    dst_h as int,
                    src@,
                    tpp as int,
                    decim as int,
                    tile_y0 + y,
                ),
            decreases rows - y,
        {
            let src_y: usize = tile_y0 + y;
            if src_y % decim == 0 {
                let ghost before = dst@;
                let ghost dst_y = src_y as int / decim as int;
                proof {
                    lemma_fundamental_div_mod(src_y as int, decim as int);
                    assert(dst_y < dst_h) by (nonlinear_arith)
                        requires
                            decim * dst_y < dst_h * decim,
                            decim > 0,
                    ;
                    assert(dst_y * decim == src_y) by (nonlinear_arith)
                        requires
                            src_y == decim * dst_y,
                    ;
                }
                decimate_row(
                    src,
                    tpp,
                    width,
                    src_y,
                    decim,
                    dst_w,
                    Ghost(dst_h as int),
                    &mut dst,
                );
                proof {
                    assert forall|x: int, v: int|
                        0 <= x < dst_w && 0 <= v < dst_h && v * decim < src_y
                            + 1 implies #[trigger] holds_rgb8(
                        dst@,
                        pixel_offset(dst_w as int, x, v),
                        src@[xtiled_index(tpp as int, x * decim, v * decim)],
                    ) by {
                        if v == dst_y {
                            lemma_last_multiple_of(dst_w as int, decim as int, x);
                        } else {
                            assert(v * decim != dst_y * decim) by (nonlinear_arith)
                                requires
                                    v != dst_y,
                                    decim > 0,
                            ;
                            assert(holds_rgb8(
                                before,
                                pixel_offset(dst_w as int, x, v),
                                src@[xtiled_index(tpp as int, x * decim, v * decim)],
                            ));
                            let at = pixel_offset(dst_w as int, x, v);
                            assert(dst@[at + 0] == before[at + 0]);
                            assert(dst@[at + 1] == before[at + 1]);
                            assert(dst@[at + 2] == before[at + 2]);
                        }
                    }
                }
            } else {
                proof {
                    assert forall|x: int, v: int|
                        0 <= x < dst_w && 0 <= v < dst_h && v * decim < src_y
                            + 1 implies #[trigger] holds_rgb8(
                        dst@,
                        pixel_offset(dst_w as int, x, v),
                        src@[xtiled_index(tpp as int, x * decim, v * decim)],
                    ) by {
                        if v * decim == src_y {
                            lemma_fundamental_div_mod_converse(src_y as int, decim as int, v, 0);
                        }
                    }
                }
            }
            y += 1;
        }
        proof {
            assert forall|v: int| 0 <= v < dst_h implies #[trigger] (v * decim) < height by {
                lemma_last_multiple_of(dst_h as int, decim as int, v);
            }
        }
        ty += 1;
    }
    proof {
        assert forall|v: int| 0 <= v < dst_h implies #[trigger] (v * decim) < height by {
            lemma_last_multiple_of(dst_h as int, decim as int, v);
        }
    }
    assert(3 * (dst_w as u32) * (dst_h as u32) == dst_w * dst_h * 3) by (nonlinear_arith)
        requires
            dst_w as u32 == dst_w,
            dst_h as u32 == dst_h,
    ;
    RgbImage::from_raw(dst_w as u32, dst_h as u32, dst).unwrap()
}

proof fn lemma_last_multiple_of(n: int, d: int, k: int)
    requires
        d > 0,
        0 <= k < n,
    ensures
        k * d < n * d,
{
    assert(k * d < n * d) by (nonlinear_arith)
        requires
            k < n,
            d > 0,
    ;
}

/// Whether the rows that stem from rows before `y_end` are in place.
spec fn rows_done(
    dst: Seq<u8>,
    dst_w: int,
    dst_h: int,
    src: Seq<u32>,
    tpp: int,
    decim: int,
    y_end: int,
) -> bool {
    forall|x: int, v: int|
        0 <= x < dst_w && 0 <= v < dst_h && v * decim < y_end ==> #[trigger] holds_rgb8(
            dst,
            pixel_offset(dst_w, x, v),
            src[xtiled_index(tpp, x * decim, v * decim)],
        )
}

/// Where the rows are whole bands of tiles and as wide as the image, every pixel that is kept lies
/// within the words that `xtiled_length_words` gives, whatever the factor.
pub proof fn lemma_whole_tiles_readable(pitch: u32, size: (u32, u32), decim: int)
    requires
        decim > 0,
        size.0 <= tiles_per_pitch(pitch) * TILE_W,
        size.1 as int % TILE_H as int == 0,
    ensures
        xtiled_readable(
            pitch as int / 4 * size.1,
            tiles_per_pitch(pitch),
            size.0 as int / decim,
            size.1 as int / decim,
            decim,
        ),
{
    let tpp = tiles_per_pitch(pitch);
    assert forall|dx: int, dy: int|
        0 <= dx < size.0 as int / decim && 0 <= dy < size.1 as int
            / decim implies #[trigger] xtiled_index(tpp, dx * decim, dy * decim) < pitch as int / 4
        * size.1 by {
        lemma_grid_inside(size.0 as int, decim, dx);
        lemma_grid_inside(size.1 as int, decim, dy);
        let x = dx * decim;
        let y = dy * decim;
        let bands = size.1 as int / 8;
        assert(tpp == pitch as int / 512);
        assert(x / 128 < tpp);
        assert(y / 8 < bands);
        assert(y / 8 * tpp + tpp <= bands * tpp) by (nonlinear_arith)
            requires
                y / 8 + 1 <= bands,
                0 <= tpp,
        ;
        assert(bands * tpp * 1024 <= pitch as int / 4 * size.1) by (nonlinear_arith)
            requires
                size.1 == bands * 8,
                tpp * 128 <= pitch as int / 4,
                0 <= bands,
        ;
    }
}

/// No two pixels of an image as wide as its bands share a word.
pub proof fn lemma_tiles_do_not_overlap(tiles: int, x1: int, y1: int, x2: int, y2: int)
    requires
        0 <= x1 < tiles * TILE_W,
        0 <= x2 < tiles * TILE_W,
        0 <= y1,
        0 <= y2,
        xtiled_index(tiles, x1, y1) == xtiled_index(tiles, x2, y2),
    ensures
        x1 == x2,
        y1 == y2,
{
    let t1 = y1 / 8 * tiles + x1 / 128;
    let t2 = y2 / 8 * tiles + x2 / 128;
    assert(t1 == t2);
    assert(y1 % 8 == y2 % 8 && x1 % 128 == x2 % 128);
    lemma_fundamental_div_mod_converse(t1, tiles, y1 / 8, x1 / 128);
    lemma_fundamental_div_mod_converse(t2, tiles, y2 / 8, x2 / 128);
}

/// Thinning by one factor and then shrinking by another is thinning by their product.
pub proof fn lemma_thinning_multiplies(
    src: Seq<u32>,
    pitch: u32,
    size: (u32, u32),
    a: int,
    img: RgbImage,
    b: int,
    small: RgbImage,
)
    requires
        a > 0,
        b > 0,
        is_xtiled_decimation(src, pitch, size, a, img),
        is_downscale(img, b, small),
    ensures
        is_xtiled_decimation(src, pitch, size, a * b, small),
{
    lemma_div_denominator(size.0 as int, a, b);
    lemma_div_denominator(size.1 as int, a, b);
    let tpp = tiles_per_pitch(pitch);
    assert forall|x: int, y: int|
        0 <= x < small.spec_width() && 0 <= y < small.spec_height() implies #[trigger] holds_rgb8(
        rgb_bytes(small),
        pixel_offset(small.spec_width(), x, y),
        src[xtiled_index(tpp, x * (a * b), y * (a * b))],
    ) by {
        lemma_grid_inside(img.spec_width(), b, x);
        lemma_grid_inside(img.spec_height(), b, y);
        assert(small.pixel(x, y) == img.pixel(x * b, y * b));
        assert(holds_rgb8(
            rgb_bytes(img),
            pixel_offset(img.spec_width(), x * b, y * b),
            src[xtiled_index(tpp, (x * b) * a, (y * b) * a)],
        ));
        assert(x * b * a == x * (a * b) && y * b * a == y * (a * b)) by (nonlinear_arith);
    }
}

/// The word of the pixel at column `x` and row `y` in a buffer with `pitch` bytes to a row: tiles of
/// 4096 bytes, each of eight rows of 512, as many side by side as the pitch holds.
pub open spec fn tile_word(pitch: int, x: int, y: int) -> int {
    let tile = pitch / 512 * (y / 8) + x / 128;
    let byte = 4096 * tile + 512 * (y % 8) + 4 * (x % 128);
    byte / 4
}

/// A tile is stored row by row, the next tile follows it, and the next band of tiles follows after
/// as many tiles as the pitch holds.
pub proof fn lemma_tile_words_step(pitch: u32, x: int, y: int)
    requires
        0 <= x,
        0 <= y,
    ensures
        xtiled_index(tiles_per_pitch(pitch), 0, 0) == 0,
        x % 128 != 127 ==> xtiled_index(tiles_per_pitch(pitch), x + 1, y) == xtiled_index(
            tiles_per_pitch(pitch),
            x,
            y,
        ) + 1,
        y % 8 != 7 ==> xtiled_index(tiles_per_pitch(pitch), x, y + 1) == xtiled_index(
            tiles_per_pitch(pitch),
            x,
            y,
        ) + 128,
        xtiled_index(tiles_per_pitch(pitch), x + 128, y) == xtiled_index(
            tiles_per_pitch(pitch),
            x,
            y,
        ) + 1024,
        xtiled_index(tiles_per_pitch(pitch), x, y + 8) == xtiled_index(
            tiles_per_pitch(pitch),
            x,
            y,
        ) + 1024 * (pitch as int / 512),
{
    let t = tiles_per_pitch(pitch);
    assert((y / 8 + 1) * t == y / 8 * t + t) by (nonlinear_arith);
    assert((y + 8) / 8 == y / 8 + 1);
    assert(y % 8 != 7 ==> (y + 1) / 8 == y / 8);
    assert(0int / 8 * t == 0) by (nonlinear_arith);
}

/// The two ways to find the word of a pixel agree.
proof fn lemma_tile_word(pitch: u32, x: int, y: int)
    requires
        0 <= x,
        0 <= y,
    ensures
        xtiled_index(tiles_per_pitch(pitch), x, y) == tile_word(pitch as int, x, y),
{
    let t = pitch as int / 512;
    assert(tiles_per_pitch(pitch) == t);
    assert(y / 8 * t == t * (y / 8)) by (nonlinear_arith);
}

/// A dump divides the size by the factor, rounded down, and leaves three samples for each pixel.
pub proof fn lemma_xtiled_dump_divides_size(
    src: &[u32],
    pitch: u32,
    size: (u32, u32),
    decim: usize,
    img: RgbImage,
)
    requires
        call_ensures(dump_intel_xtiled_xr30_decimated_to_image, (src, pitch, size, decim), img),
        decim > 0,
    ensures
        rgb_size(img).0 * decim <= size.0 < rgb_size(img).0 * decim + decim,
        rgb_size(img).1 * decim <= size.1 < rgb_size(img).1 * decim + decim,
        rgb_bytes(img).len() == 3 * (rgb_size(img).0 * rgb_size(img).1),
{
    let d = decim as int;
    lemma_fundamental_div_mod(size.0 as int, d);
    lemma_fundamental_div_mod(size.1 as int, d);
    assert(rgb_size(img).0 * d == d * rgb_size(img).0 && rgb_size(img).1 * d == d * rgb_size(
        img,
    ).1) by (nonlinear_arith);
    assert(0 <= size.0 as int % d < d && 0 <= size.1 as int % d < d) by (nonlinear_arith)
        requires
            d > 0,
    ;
}

/// A dump shows at column `x` and row `y` the nearest levels to those of the pixel that is `decim`
/// times as far from the left and from the top of the screen.
pub proof fn lemma_xtiled_dump_shows_screen(
    src: &[u32],
    pitch: u32,
    size: (u32, u32),
    decim: usize,
    img: RgbImage,
    x: int,
    y: int,
)
    requires
        call_ensures(dump_intel_xtiled_xr30_decimated_to_image, (src, pitch, size, decim), img),
        decim > 0,
        size.0 as int % decim as int == 0,
        size.1 as int % decim as int == 0,
        0 <= x,
        decim * x < size.0,
        0 <= y,
        decim * y < size.1,
    ensures
        are_nearest(
            rgb_bytes(img)[3 * (rgb_size(img).0 * y) + 3 * x] as int,
            rgb_bytes(img)[3 * (rgb_size(img).0 * y) + 3 * x + 1] as int,
            rgb_bytes(img)[3 * (rgb_size(img).0 * y) + 3 * x + 2] as int,
            src@[tile_word(pitch as int, decim * x, decim * y)],
        ),
{
    let d = decim as int;
    let w = rgb_size(img).0 as int;
    lemma_xtiled_dump_divides_size(src, pitch, size, decim, img);
    lemma_grid_bound(size.0 as int, d, x);
    lemma_grid_bound(size.1 as int, d, y);
    assert(x * d == d * x && y * d == d * y) by (nonlinear_arith);
    assert(0 <= d * x && 0 <= d * y) by (nonlinear_arith)
        requires
            0 <= x,
            0 <= y,
            0 < d,
    ;
    lemma_tile_word(pitch, d * x, d * y);
    let word = src@[xtiled_index(tiles_per_pitch(pitch), x * d, y * d)];
    assert(holds_rgb8(rgb_bytes(img), pixel_offset(img.spec_width(), x, y), word));
    assert((y * w + x) * 3 == 3 * (w * y) + 3 * x) by (nonlinear_arith);
}

/// A place on the grid that is on the screen is kept.
proof fn lemma_grid_bound(n: int, d: int, k: int)
    requires
        d > 0,
        n % d == 0,
        d * k < n,
    ensures
        k < n / d,
{
    lemma_fundamental_div_mod(n, d);
    assert(k < n / d) by (nonlinear_arith)
        requires
            d * k < d * (n / d),
            d > 0,
    ;
}

/// A buffer is long enough exactly where it holds the word of every pixel that is kept.
pub proof fn lemma_xtiled_fits_is_exact(
    len: usize,
    pitch: u32,
    size: (u32, u32),
    decim: usize,
    r: bool,
)
    requires
        call_ensures(xtiled_fits, (len, pitch, size, decim), r),
        decim > 0,
    ensures
        r == forall|x: int, y: int|
            0 <= x < size.0 as int / decim as int && 0 <= y < size.1 as int / decim as int
                ==> #[trigger] tile_word(pitch as int, decim * x, decim * y) < len,
{
    let d = decim as int;
    let t = tiles_per_pitch(pitch);
    assert forall|x: int, y: int| 0 <= x && 0 <= y implies #[trigger] tile_word(
        pitch as int,
        d * x,
        d * y,
    ) == xtiled_index(t, x * d, y * d) by {
        lemma_word_of_kept(pitch, d, x, y);
    }
    assert forall|x: int, y: int| 0 <= x && 0 <= y implies #[trigger] xtiled_index(
        t,
        x * d,
        y * d,
    ) == tile_word(pitch as int, d * x, d * y) by {
        lemma_word_of_kept(pitch, d, x, y);
    }
}

proof fn lemma_word_of_kept(pitch: u32, d: int, x: int, y: int)
    requires
        0 < d,
        0 <= x,
        0 <= y,
    ensures
        xtiled_index(tiles_per_pitch(pitch), x * d, y * d) == tile_word(
            pitch as int,
            d * x,
            d * y,
        ),
{
    assert(x * d == d * x && y * d == d * y && 0 <= d * x && 0 <= d * y) by (nonlinear_arith)
        requires
            0 <= x,
            0 <= y,
            0 < d,
    ;
    lemma_tile_word(pitch, d * x, d * y);
}

/// The words of a framebuffer are all the bytes of its rows but the few that fill no word.
pub proof fn lemma_xtiled_words_are_the_rows(pitch: u32, height: u32, words: usize)
    requires
        call_ensures(xtiled_length_words, (pitch, height), words),
    ensures
        4 * words + pitch as int % 4 * height == pitch * height,
{
    let p = pitch as int;
    assert(4 * (p / 4 * height) + p % 4 * height == p * height) by (nonlinear_arith)
        requires
            p == 4 * (p / 4) + p % 4,
    ;
}

/// Where the pitch is whole tiles that cover the width, and the last row that is kept lies in a whole
/// band of tiles, every pixel that is kept lies within the bytes of the rows.
pub proof fn lemma_rows_hold_kept_pixels(pitch: u32, size: (u32, u32), decim: int, x: int, y: int)
    requires
        decim > 0,
        pitch as int % 512 == 0,
        4 * size.0 <= pitch,
        0 <= x,
        decim * x < size.0,
        0 <= y,
        decim * y / 8 * 8 + 8 <= size.1,
    ensures
        4 * tile_word(pitch as int, decim * x, decim * y) + 4 <= pitch * size.1,
{
    let t = pitch as int / 512;
    assert(0 <= decim * x && 0 <= decim * y) by (nonlinear_arith)
        requires
            0 <= x,
            0 <= y,
            0 < decim,
    ;
    let sx = decim * x;
    let sy = decim * y;
    assert(sx / 128 + 1 <= t);
    let bands = sy / 8 + 1;
    assert(t * (sy / 8) + t == t * bands) by (nonlinear_arith)
        requires
            bands == sy / 8 + 1,
    ;
    assert(4096 * (t * bands) <= pitch * size.1) by (nonlinear_arith)
        requires
            pitch == 512 * t,
            8 * bands <= size.1,
            0 <= t,
    ;
}

} // verus!
