//! Framebuffers that are kept row by row, or in square tiles.

use crate::pixel::{are_nearest, lemma_xr24_is_nearest, xr24_of_xr30, xr30_to_xr24_inplace};
use vstd::arithmetic::div_mod::lemma_fundamental_div_mod;
use vstd::prelude::*;

verus! {

/// The factor that a linear framebuffer is thinned by.
pub const DECIM: usize = 4;

/// Whether thinning a `size` image of `image_len` words into `copy_len` words stays within both.
pub open spec fn decimate_fits(size: (int, int), image_len: int, copy_len: int) -> bool {
    size.0 >= DECIM && size.1 >= DECIM ==> {
        &&& (size.1 / DECIM as int - 1) * DECIM * size.0 + (size.0 / DECIM as int - 1) * DECIM
            < image_len
        &&& size.1 / DECIM as int * (size.0 / DECIM as int) <= copy_len
    }
}

/// Whether `copy` begins with every fourth pixel of every fourth row of `image`, each put
/// through `f`, and goes on as `rest`.
pub open spec fn is_decimation(
    size: (int, int),
    image: Seq<u32>,
    f: spec_fn(u32) -> int,
    rest: Seq<u32>,
    copy: Seq<u32>,
) -> bool {
    &&& copy.len() == rest.len()
    &&& forall|x: int, y: int|
        0 <= x < size.0 / DECIM as int && 0 <= y < size.1 / DECIM as int
            ==> #[trigger] copy[y * (size.0 / DECIM as int) + x] == f(
            image[y * DECIM * size.0 + x * DECIM],
        )
    &&& forall|i: int|
        size.1 / DECIM as int * (size.0 / DECIM as int) <= i < copy.len()
            ==> #[trigger] copy[i] == rest[i]
}

/// Copies every fourth pixel of every fourth row of `image` to the front of `copy`.
pub fn decimate_image_4(size: (usize, usize), image: &[u32], copy: &mut [u32])
    requires
        decimate_fits(
            (size.0 as int, size.1 as int),
            image@.len() as int,
            old(copy)@.len() as int,
        ),
    ensures
        is_decimation(
            (size.0 as int, size.1 as int),
            image@,
            |p: u32| p as int,
            old(copy)@,
            final(copy)@,
        ),
{
    let new_w: usize = size.0 / DECIM;
    let new_h: usize = size.1 / DECIM;
    let image_len: usize = image.len();
    let copy_len: usize = copy.len();
    let ghost start = copy@;
    let mut y: usize = 0;
    while y < new_h
        invariant
            y <= new_h,
            new_w == size.0 / DECIM,
            new_h == size.1 / DECIM,
            image_len == image@.len(),
            copy_len == copy@.len(),
            copy_len == start.len(),
            decimate_fits((size.0 as int, size.1 as int), image_len as int, copy_len as int),
            forall|px: int, py: int|
                0 <= px < new_w && 0 <= py < y ==> #[trigger] copy@[py * new_w + px]
                    == image@[py * DECIM * size.0 + px * DECIM],
            forall|i: int| y * new_w <= i < copy_len ==> #[trigger] copy@[i] == start[i],
        decreases new_h - y,
    {
        let ty: usize = DECIM * y;
        let mut x: usize = 0;
        while x < new_w
            invariant
                x <= new_w,
                y < new_h,
                ty == DECIM * y,
                new_w == size.0 / DECIM,
                new_h == size.1 / DECIM,
                image_len == image@.len(),
                copy_len == copy@.len(),
                copy_len == start.len(),
                decimate_fits((size.0 as int, size.1 as int), image_len as int, copy_len as int),
                forall|px: int, py: int|
                    0 <= px < new_w && 0 <= py < y ==> #[trigger] copy@[py * new_w + px]
                        == image@[py * DECIM * size.0 + px * DECIM],
                forall|px: int|
                    0 <= px < x ==> #[trigger] copy@[y * new_w + px] == image@[y * DECIM * size.0
                        + px * DECIM],
                forall|i: int| y * new_w + x <= i < copy_len ==> #[trigger] copy@[i] == start[i],
            decreases new_w - x,
        {
            let tx: usize = DECIM * x;
            let ghost before = copy@;
            proof {
                lemma_row_order(new_w as int, new_h as int, x as int, y as int);
                assert(ty * size.0 + tx <= (new_h - 1) * DECIM * size.0 + (new_w - 1) * DECIM)
                    by (nonlinear_arith)
                    requires
                        ty == DECIM * y,
                        y <= new_h - 1,
                        tx == DECIM * x,
                        x <= new_w - 1,
                        DECIM == 4,
                        0 <= size.0,
                ;
                assert(0 <= ty * size.0) by (nonlinear_arith)
                    requires
                        0 <= ty,
                        0 <= size.0,
                ;
                assert(ty * size.0 + tx == y * DECIM * size.0 + x * DECIM) by (nonlinear_arith)
                    requires
                        ty == DECIM * y,
                        tx == DECIM * x,
                        DECIM == 4,
                ;
            }
            copy[y * new_w + x] = image[ty * size.0 + tx];
            proof {
                assert forall|px: int, py: int| 0 <= px < new_w && 0 <= py < y implies #[trigger] copy@[py
                    * new_w + px] == image@[py * DECIM * size.0 + px * DECIM] by {
                    assert(0 <= py * new_w + px < y * new_w) by (nonlinear_arith)
                        requires
                            0 <= px < new_w,
                            0 <= py,
                            py + 1 <= y,
                    ;
                    assert(before[py * new_w + px] == image@[py * DECIM * size.0 + px * DECIM]);
                }
                assert forall|px: int| 0 <= px < x + 1 implies #[trigger] copy@[y * new_w + px]
                    == image@[y * DECIM * size.0 + px * DECIM] by {
                    if px < x {
                        assert(before[y * new_w + px] == image@[y * DECIM * size.0 + px * DECIM]);
                    }
                }
            }
            x += 1;
        }
        assert((y + 1) * new_w == y * new_w + new_w) by (nonlinear_arith);
        y += 1;
    }
}

/// Pixels counted row by row stay below the number of pixels.
proof fn lemma_row_order(w: int, h: int, x: int, y: int)
    requires
        0 <= x < w,
        0 <= y < h,
    ensures
        0 <= y * w,
        y * w + x < h * w,
{
    assert(0 <= y * w && y * w + w <= h * w) by (nonlinear_arith)
        requires
            0 <= y,
            y + 1 <= h,
            0 < w,
    ;
}

/// Words of XRGB8888 pixels, with the bytes to a row and the size that they are to be decoded with.
#[derive(Debug)]
pub struct WordFrame {
    pub words: Vec<u32>,
    pub pitch: u32,
    pub size: (u32, u32),
}

/// Whether `frame` is a linear framebuffer thinned by four, each pixel put through `f`.
pub open spec fn is_thinned_frame(
    buffer: Seq<u32>,
    pitch: u32,
    size: (u32, u32),
    f: spec_fn(u32) -> int,
    frame: WordFrame,
) -> bool {
    &&& frame.pitch == pitch as int / 4
    &&& frame.size.0 == size.0 as int / 4
    &&& frame.size.1 == size.1 as int / 4
    &&& is_decimation(
        (size.0 as int, size.1 as int),
        buffer,
        f,
        Seq::new((buffer.len() / 16) as nat, |i: int| 0u32),
        frame.words@,
    )
}

/// The pixels of a linear framebuffer of `height` rows with `pitch` bytes each, at `bpp` bits to a
/// pixel.
pub fn linear_length(pitch: u32, height: u32, bpp: u32) -> (r: u32)
    requires
        bpp >= 8,
        pitch * height <= u32::MAX,
    ensures
        r == pitch * height / (bpp as int / 8),
{
    pitch * height / (bpp / 8)
}

/// Thins a linear XRGB8888 or ARGB8888 framebuffer by four.
///
/// The pixels that are kept lie within the buffer, and a sixteenth of its words holds them.
pub fn dump_linear_to_image(buffer: &[u32], pitch: u32, size: (u32, u32)) -> (frame: WordFrame)
    requires
        decimate_fits(
            (size.0 as int, size.1 as int),
            buffer@.len() as int,
            buffer@.len() as int / 16,
        ),
    ensures
        is_thinned_frame(buffer@, pitch, size, |p: u32| p as int, frame),
{
    let mut words: Vec<u32> = vec![0u32; buffer.len() / (4 * 4)];
    assert(words@ =~= Seq::new((buffer@.len() / 16) as nat, |i: int| 0u32));
    decimate_image_4((size.0 as usize, size.1 as usize), buffer, words.as_mut_slice());
    WordFrame { words, pitch: pitch / 4, size: (size.0 / 4, size.1 / 4) }
}

/// Thins a linear XRGB2101010 or ARGB2101010 framebuffer by four, in eight bits for each channel.
///
/// The pixels that are kept lie within the buffer, and a sixteenth of its words holds them.
pub fn dump_linear_xr30_to_image(
    buffer: Vec<u32>,
    pitch: u32,
    size: (u32, u32),
) -> (frame: WordFrame)
    requires
        decimate_fits(
            (size.0 as int, size.1 as int),
            buffer@.len() as int,
            buffer@.len() as int / 16,
        ),
    ensures
        is_thinned_frame(buffer@, pitch, size, |p: u32| xr24_of_xr30(p), frame),
{
    let mut copy: Vec<u32> = buffer;
    xr30_to_xr24_inplace(copy.as_mut_slice());
    let frame: WordFrame = dump_linear_to_image(copy.as_slice(), pitch, size);
    proof {
        assert forall|x: int, y: int|
            0 <= x < size.0 as int / 4 && 0 <= y < size.1 as int
                / 4 implies #[trigger] frame.words@[y * (size.0 as int / 4) + x] == xr24_of_xr30(
            buffer@[y * DECIM * size.0 + x * DECIM],
        ) by {
            assert(0 <= y * DECIM * size.0 + x * DECIM <= (size.1 as int / 4 - 1) * DECIM * size.0
                + (size.0 as int / 4 - 1) * DECIM) by (nonlinear_arith)
                requires
                    0 <= x <= size.0 as int / 4 - 1,
                    0 <= y <= size.1 as int / 4 - 1,
                    DECIM == 4,
                    0 <= size.0,
            ;
        }
    }
    frame
}

/// Where every row is at least as long as its pixels, thinning by four stays within the pixels of
/// the buffer and within the sixteenth of them that it is given.
pub proof fn lemma_full_rows_decimate(pitch: u32, size: (u32, u32))
    requires
        4 * size.0 <= pitch,
    ensures
        decimate_fits(
            (size.0 as int, size.1 as int),
            pitch * size.1 / 4,
            pitch * size.1 / 4 / 16,
        ),
{
    let w = size.0 as int;
    let h = size.1 as int;
    let len = pitch * size.1 / 4;
    assert(w * h <= len) by {
        assert(4 * (w * h) <= pitch * h) by (nonlinear_arith)
            requires
                4 * w <= pitch,
                0 <= h,
        ;
    }
    if w >= 4 && h >= 4 {
        let nw = w / 4;
        let nh = h / 4;
        assert((nh - 1) * DECIM * w + (nw - 1) * DECIM < w * h) by (nonlinear_arith)
            requires
                DECIM == 4,
                1 <= nw,
                1 <= nh,
                4 * nw <= w,
                4 * nh <= h,
        ;
        assert(16 * (nh * nw) <= w * h) by (nonlinear_arith)
            requires
                1 <= nw,
                1 <= nh,
                4 * nw <= w,
                4 * nh <= h,
        ;
    }
}

/// How a framebuffer is cut into square tiles: their side, how many stand across and down, and the
/// words that they hold in all.
#[derive(Clone, Copy, Debug, PartialEq, Eq)]
pub struct TileLayout {
    pub tilesize: u32,
    pub tiles: (u32, u32),
    pub words: u32,
}

/// The side of a tile of the Broadcom VC4 layout, in pixels.
pub const VC4_TILE: u32 = 32;

/// Tiles that cover `n` pixels.
pub open spec fn tile_count(n: int) -> int {
    (n + VC4_TILE - 1) / VC4_TILE as int
}

/// The bytes of the tiles that cover an image, at `bpp` bits to a pixel.
pub open spec fn tiled_bytes(size: (u32, u32), bpp: u32) -> int {
    tile_count(size.0 as int) * tile_count(size.1 as int) * VC4_TILE * VC4_TILE * (bpp as int / 8)
}

/// Whether the bytes of the tiles that cover an image can be counted in 32 bits.
pub open spec fn tiles_countable(size: (u32, u32), bpp: u32) -> bool {
    &&& size.0 + VC4_TILE <= u32::MAX
    &&& size.1 + VC4_TILE <= u32::MAX
    &&& tiled_bytes(size, 8) <= u32::MAX
    &&& tiled_bytes(size, bpp) <= u32::MAX
}

/// The layout of a Broadcom VC4 tiled framebuffer.
pub fn broadcom_tiled_layout(size: (u32, u32), bpp: u32) -> (r: TileLayout)
    requires
        tiles_countable(size, bpp),
    ensures
        r.tilesize == VC4_TILE,
        r.tiles.0 == tile_count(size.0 as int),
        r.tiles.1 == tile_count(size.1 as int),
        r.words == tiled_bytes(size, bpp) / 4,
{
    let tilesize: u32 = VC4_TILE;
    let tiles: (u32, u32) = (
        (size.0 + tilesize - 1) / tilesize,
        (size.1 + tilesize - 1) / tilesize,
    );
    proof {
        let count = tile_count(size.0 as int) * tile_count(size.1 as int);
        let bytes = bpp as int / 8;
        assert(tiles.0 == tile_count(size.0 as int) && tiles.1 == tile_count(size.1 as int));
        assert(tiles.0 * tiles.1 == count);
        assert(0 <= count) by (nonlinear_arith)
            requires
                tiles.0 * tiles.1 == count,
                0 <= tiles.0,
                0 <= tiles.1,
        ;
        assert(count * VC4_TILE * VC4_TILE * 1 == count * 1024 && count * VC4_TILE * VC4_TILE * bytes
            == count * 1024 * bytes) by (nonlinear_arith)
            requires
                VC4_TILE == 32,
        ;
        assert(tiled_bytes(size, 8) == count * 1024);
        assert(tiled_bytes(size, bpp) == count * 1024 * bytes);
    }
    let total_tiles: u32 = tiles.0 * tiles.1;
    assert(total_tiles * tilesize <= total_tiles * tilesize * tilesize && total_tiles * tilesize
        * tilesize == total_tiles * 1024) by (nonlinear_arith)
        requires
            tilesize == 32,
            0 <= total_tiles,
    ;
    let length: u32 = total_tiles * tilesize * tilesize * (bpp / 8);
    TileLayout { tilesize, tiles, words: length / 4 }
}

/// A dump of a linear framebuffer is a quarter as wide and as high, rounded down, and its rows are
/// given as a quarter of the bytes.
pub proof fn lemma_linear_dump_divides_size(
    buffer: &[u32],
    pitch: u32,
    size: (u32, u32),
    frame: WordFrame,
)
    requires
        call_ensures(dump_linear_to_image, (buffer, pitch, size), frame),
    ensures
        4 * frame.size.0 <= size.0 < 4 * frame.size.0 + 4,
        4 * frame.size.1 <= size.1 < 4 * frame.size.1 + 4,
        4 * frame.pitch <= pitch < 4 * frame.pitch + 4,
        16 * frame.words@.len() <= buffer@.len() < 16 * frame.words@.len() + 16,
        forall|i: int|
            frame.size.0 * frame.size.1 <= i < frame.words@.len() ==> #[trigger] frame.words@[i]
                == 0,
{
    assert(frame.size.0 * frame.size.1 == size.1 as int / 4 * (size.0 as int / 4))
        by (nonlinear_arith)
        requires
            frame.size.0 == size.0 as int / 4,
            frame.size.1 == size.1 as int / 4,
    ;
}

/// The same holds where the framebuffer has ten bits for each channel.
pub proof fn lemma_linear_xr30_dump_divides_size(
    buffer: Vec<u32>,
    pitch: u32,
    size: (u32, u32),
    frame: WordFrame,
)
    requires
        call_ensures(dump_linear_xr30_to_image, (buffer, pitch, size), frame),
    ensures
        4 * frame.size.0 <= size.0 < 4 * frame.size.0 + 4,
        4 * frame.size.1 <= size.1 < 4 * frame.size.1 + 4,
        4 * frame.pitch <= pitch < 4 * frame.pitch + 4,
        16 * frame.words@.len() <= buffer@.len() < 16 * frame.words@.len() + 16,
        forall|i: int|
            frame.size.0 * frame.size.1 <= i < frame.words@.len() ==> #[trigger] frame.words@[i]
                == 0,
{
    assert(frame.size.0 * frame.size.1 == size.1 as int / 4 * (size.0 as int / 4))
        by (nonlinear_arith)
        requires
            frame.size.0 == size.0 as int / 4,
            frame.size.1 == size.1 as int / 4,
    ;
}

/// The words of a dump are the image that its own size describes: at column `x` and row `y` of it
/// stands the pixel four times as far from the left and from the top of the screen.
pub proof fn lemma_linear_dump_shows_screen(
    buffer: &[u32],
    pitch: u32,
    size: (u32, u32),
    frame: WordFrame,
    x: int,
    y: int,
)
    requires
        call_ensures(dump_linear_to_image, (buffer, pitch, size), frame),
        0 <= x,
        4 * x + 4 <= size.0,
        0 <= y,
        4 * y + 4 <= size.1,
    ensures
        frame.words@[frame.size.0 * y + x] == buffer@[4 * (size.0 * y) + 4 * x],
{
    let w = frame.size.0 as int;
    assert(w == size.0 as int / 4 && x < w && y < size.1 as int / 4);
    assert(w * y == y * w && y * 4 * size.0 == 4 * (size.0 * y)) by (nonlinear_arith);
    let at = y * (size.0 as int / DECIM as int) + x;
    assert(y * DECIM * size.0 == y * 4 * size.0);
    assert(frame.words@[at] == frame.words@[w * y + x]);
}

/// Where the framebuffer has ten bits for each channel, the dump shows the same pixels, in words of
/// the nearest levels with eight.
pub proof fn lemma_linear_xr30_dump_shows_screen(
    buffer: Vec<u32>,
    pitch: u32,
    size: (u32, u32),
    frame: WordFrame,
    x: int,
    y: int,
)
    requires
        call_ensures(dump_linear_xr30_to_image, (buffer, pitch, size), frame),
        0 <= x,
        4 * x + 4 <= size.0,
        0 <= y,
        4 * y + 4 <= size.1,
    ensures
        frame.words@[frame.size.0 * y + x] < 0x100_0000,
        are_nearest(
            frame.words@[frame.size.0 * y + x] as int / 0x1_0000 % 256,
            frame.words@[frame.size.0 * y + x] as int / 0x100 % 256,
            frame.words@[frame.size.0 * y + x] as int % 256,
            buffer@[4 * (size.0 * y) + 4 * x],
        ),
{
    let w = frame.size.0 as int;
    assert(w == size.0 as int / 4 && x < w && y < size.1 as int / 4);
    assert(w * y == y * w && y * 4 * size.0 == 4 * (size.0 * y)) by (nonlinear_arith);
    let at = y * (size.0 as int / DECIM as int) + x;
    assert(y * DECIM * size.0 == y * 4 * size.0);
    assert(frame.words@[at] == frame.words@[w * y + x]);
    lemma_xr24_is_nearest(buffer@[4 * (size.0 * y) + 4 * x]);
}

/// Thinning puts the pixels that it keeps, row by row and without a gap, at the front of the copy, and
/// leaves the rest of the copy alone.
pub proof fn lemma_thinning_packs_rows(size: (usize, usize), image: &[u32], copy: &mut [u32])
    requires
        call_ensures(decimate_image_4, (size, image, copy), ()),
    ensures
        final(copy)@.len() == old(copy)@.len(),
        forall|i: int|
            size.0 as int / 4 * (size.1 as int / 4) <= i < old(copy)@.len()
                ==> #[trigger] final(copy)@[i] == old(copy)@[i],
        forall|x: int, y: int|
            0 <= x < size.0 as int / 4 && 0 <= y < size.1 as int / 4
                ==> #[trigger] final(copy)@[size.0 as int / 4 * y + x] == image@[4 * (size.0 * y)
                + 4 * x],
{
    let w = size.0 as int / 4;
    assert(w * (size.1 as int / 4) == size.1 as int / 4 * w) by (nonlinear_arith);
    assert forall|x: int, y: int|
        0 <= x < w && 0 <= y < size.1 as int / 4 implies #[trigger] final(copy)@[w * y + x]
        == image@[4 * (size.0 * y) + 4 * x] by {
        assert(w * y == y * w && y * 4 * size.0 == 4 * (size.0 * y)) by (nonlinear_arith);
        let at = y * (size.0 as int / DECIM as int) + x;
        assert(y * DECIM * size.0 == y * 4 * size.0);
        assert(final(copy)@[at] == final(copy)@[w * y + x]);
    }
}

/// The pixels of a linear framebuffer fill the bytes of its rows, up to less than one more pixel.
pub proof fn lemma_linear_pixels_fill_rows(pitch: u32, height: u32, bpp: u32, r: u32)
    requires
        call_ensures(linear_length, (pitch, height, bpp), r),
        bpp >= 8,
    ensures
        bpp as int / 8 * r <= pitch * height < bpp as int / 8 * r + bpp as int / 8,
{
    let b = bpp as int / 8;
    lemma_fundamental_div_mod(pitch * height, b);
    assert(0 <= (pitch * height) % b < b) by (nonlinear_arith)
        requires
            b > 0,
    ;
}

/// The tiles are 32 pixels wide and high, cover the image with none to spare, and hold four bytes to
/// a word.
pub proof fn lemma_tiles_cover_image(size: (u32, u32), bpp: u32, r: TileLayout)
    requires
        call_ensures(broadcom_tiled_layout, (size, bpp), r),
    ensures
        r.tilesize == 32,
        32 * r.tiles.0 - 32 < size.0 <= 32 * r.tiles.0,
        32 * r.tiles.1 - 32 < size.1 <= 32 * r.tiles.1,
        4 * r.words == 32 * r.tiles.0 * (32 * r.tiles.1) * (bpp as int / 8),
{
    let a = r.tiles.0 as int;
    let d = r.tiles.1 as int;
    let b = bpp as int / 8;
    assert(a * d * VC4_TILE * VC4_TILE * b == 4 * (256 * (a * d * b)) && 32 * a * (32 * d) * b == 4
        * (256 * (a * d * b))) by (nonlinear_arith)
        requires
            VC4_TILE == 32,
    ;
}

} // verus!
