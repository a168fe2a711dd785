//! Broadcom SAND128 video frames: columns 128 bytes wide, luma above chroma in each.

use crate::fourcc::{sand128_code, SAND128};
use crate::rgb_image::image_fits;
use vstd::arithmetic::div_mod::{lemma_fundamental_div_mod, lemma_fundamental_div_mod_converse};
use vstd::prelude::*;

verus! {

/// Words across a column.
pub const SAND_STRIDE: usize = 32;

/// One luma and two chroma samples.
#[derive(Clone, Copy, Debug, PartialEq, Eq, Structural)]
pub struct YUV420Pixel {
    pub y: u8,
    pub u: u8,
    pub v: u8,
}

impl YUV420Pixel {
    /// Makes a pixel from its samples.
    pub fn new(y: u8, u: u8, v: u8) -> (r: YUV420Pixel)
        ensures
            r == (YUV420Pixel { y, u, v }),
    {
        YUV420Pixel { y, u, v }
    }
}

/// An image of luma and chroma samples, rows from the top and pixels from the left.
#[derive(Debug)]
pub struct YuvImage {
    pub width: usize,
    pub height: usize,
    pub pixels: Vec<YUV420Pixel>,
}

impl YuvImage {
    /// One pixel for each place.
    pub open spec fn wf(self) -> bool {
        self.pixels@.len() == self.width * self.height
    }

    /// The pixel at column `x` and row `y`.
    pub open spec fn at(self, x: int, y: int) -> YUV420Pixel {
        self.pixels@[y * self.width + x]
    }
}

/// How a ten-bit or eight-bit SAND128 frame is thinned: one pixel is kept for each word of luma.
#[derive(Clone, Copy, Debug, PartialEq, Eq, Structural)]
pub enum SandFormat {
    /// Ten bits for each sample, three samples to a word.
    P030,
    /// Eight bits for each sample, four samples to a word.
    Nv12,
}

impl SandFormat {
    /// Pixels across a column.
    pub open spec fn column_pixels(self) -> int {
        match self {
            SandFormat::P030 => 96,
            SandFormat::Nv12 => 128,
        }
    }

    /// Pixels in a word of luma, and the factor that a frame is thinned by.
    pub open spec fn word_pixels(self) -> int {
        match self {
            SandFormat::P030 => 3,
            SandFormat::Nv12 => 4,
        }
    }

    /// The samples that a word of luma and a word of chroma stand for.
    pub open spec fn samples(self, luma: u32, chroma: u32) -> (int, int, int) {
        match self {
            SandFormat::P030 => (
                luma as int / 4 % 256,
                chroma as int / 4096 % 256,
                chroma as int / 4 % 256,
            ),
            SandFormat::Nv12 => (
                luma as int % 256,
                chroma as int % 256,
                chroma as int / 256 % 256,
            ),
        }
    }

    /// Pixels across a column.
    pub(crate) fn pixels_per_column(self) -> (r: usize)
        ensures
            r == self.column_pixels(),
    {
        match self {
            SandFormat::P030 => 96,
            SandFormat::Nv12 => 128,
        }
    }

    /// Pixels in a word of luma.
    pub(crate) fn pixels_per_word(self) -> (r: usize)
        ensures
            r == self.word_pixels(),
    {
        match self {
            SandFormat::P030 => 3,
            SandFormat::Nv12 => 4,
        }
    }
}

/// The column height that a SAND128 modifier carries, in bits 8 to 23.
pub open spec fn sand_lines(modifier: u64) -> int {
    modifier as int / 256 % 65536
}

/// Whether a modifier is that of the SAND128 layout, with whatever column height.
pub open spec fn is_sand128(modifier: u64) -> bool {
    modifier - sand_lines(modifier) * 256 == SAND128
}

/// The words of a SAND128 frame: whole columns only.
pub open spec fn sand_words(format: SandFormat, width: int, modifier: u64) -> int {
    sand_lines(modifier) * (width / format.column_pixels()) * SAND_STRIDE
}

/// The column that the kept pixel at column `x` of the thinned frame lies in.
pub open spec fn sand_column(format: SandFormat, x: int) -> int {
    x * format.word_pixels() / format.column_pixels()
}

/// The word of a row of its column that holds the kept pixel at column `x` of the thinned frame.
pub open spec fn sand_word(format: SandFormat, x: int) -> int {
    x * format.word_pixels() % format.column_pixels() / format.word_pixels()
}

/// Where the luma of the kept pixel at column `x` and row `y` of the thinned frame lies.
pub open spec fn luma_index(format: SandFormat, lines: int, x: int, y: int) -> int {
    sand_column(format, x) * SAND_STRIDE * lines + y * format.word_pixels() * SAND_STRIDE
        + sand_word(format, x)
}

/// Where the chroma of the kept pixel at column `x` and row `y` of the thinned frame lies: half
/// as many rows, `offset` bytes into the column, and one pair of words for two words of luma.
pub open spec fn chroma_index(format: SandFormat, lines: int, offset: int, x: int, y: int) -> int {
    sand_column(format, x) * SAND_STRIDE * lines + offset / 4 + y * format.word_pixels() / 2
        * SAND_STRIDE + sand_word(format, x) / 2 * 2 + 1
}

/// Whether the luma and chroma of every kept pixel lie within `len` words.
pub open spec fn sand_readable(
    format: SandFormat,
    len: int,
    width: int,
    height: int,
    modifier: u64,
    offset: int,
) -> bool {
    forall|x: int, y: int|
        #![trigger luma_index(format, sand_lines(modifier), x, y)]
        #![trigger chroma_index(format, sand_lines(modifier), offset, x, y)]
        0 <= x < width / format.word_pixels() && 0 <= y < height / format.word_pixels() ==> {
            &&& luma_index(format, sand_lines(modifier), x, y) < len
            &&& chroma_index(format, sand_lines(modifier), offset, x, y) < len
        }
}

/// Whether the thinned frame fits in memory, as it does where it has no more pixels than the `len`
/// words that it is read from.
pub open spec fn sand_image_fits(format: SandFormat, len: int, width: int, height: int) -> bool {
    let w = width / format.word_pixels();
    let h = height / format.word_pixels();
    image_fits(w, h) || w * h <= len
}

/// Whether `img` is a SAND128 frame with the first pixel of every word of luma kept, in every
/// third (P030) or fourth (NV12) row.
pub open spec fn is_sand_decode(
    format: SandFormat,
    plane: Seq<u32>,
    size: (usize, usize),
    modifier: u64,
    offset: int,
    img: YuvImage,
) -> bool {
    &&& img.wf()
    &&& img.width == size.0 as int / format.word_pixels()
    &&& img.height == size.1 as int / format.word_pixels()
    &&& forall|x: int, y: int|
        0 <= x < img.width && 0 <= y < img.height ==> {
            let p = #[trigger] img.at(x, y);
            (p.y as int, p.u as int, p.v as int) == format.samples(
                plane[luma_index(format, sand_lines(modifier), x, y)],
                plane[chroma_index(format, sand_lines(modifier), offset, x, y)],
            )
        }
}

/// Whether a modifier is that of the SAND128 layout, with whatever column height.
pub fn has_sand128(modifier: u64) -> (r: bool)
    ensures
        r == is_sand128(modifier),
{
    let base: u64 = modifier & !(0xFFFFu64 << 8);
    assert(modifier & !(0xFFFFu64 << 8) == modifier - modifier / 256 % 65536 * 256)
        by (bit_vector);
    sand128_code() == base
}

/// The column height that a SAND128 modifier carries.
fn lines_of(modifier: u64) -> (r: usize)
    requires
        is_sand128(modifier),
    ensures
        r == sand_lines(modifier),
        r < 65536,
{
    assert((modifier >> 8) & 0xFFFF_FFFF == modifier / 256 % 65536) by (bit_vector)
        requires
            modifier - modifier / 256 % 65536 * 256 == SAND128,
    ;
    ((modifier >> 8) & 0xFFFF_FFFF) as usize
}

/// The words to read of a SAND128 frame.
pub fn sand_length(format: SandFormat, width: usize, modifier: u64) -> (r: usize)
    requires
        is_sand128(modifier),
        sand_words(format, width as int, modifier) <= usize::MAX,
    ensures
        r == sand_words(format, width as int, modifier),
{
    let lines: usize = lines_of(modifier);
    let columns: usize = width / format.pixels_per_column();
    assert(0 <= lines * columns && lines * columns <= lines * columns * 32) by (nonlinear_arith)
        requires
            0 <= lines,
            0 <= columns,
    ;
    lines * columns * SAND_STRIDE
}

/// The partial sums of a kept pixel's addresses are no larger than the addresses.
proof fn lemma_sand_sums(format: SandFormat, lines: int, offset: int, x: int, y: int)
    requires
        0 <= lines,
        0 <= offset,
        0 <= x,
        0 <= y,
    ensures
        0 <= sand_column(format, x),
        0 <= sand_column(format, x) * SAND_STRIDE <= x * format.word_pixels(),
        0 <= sand_column(format, x) * SAND_STRIDE * lines,
        0 <= sand_word(format, x) < SAND_STRIDE,
        0 <= y * format.word_pixels() / 2 * SAND_STRIDE,
{
    let c = sand_column(format, x) * SAND_STRIDE;
    assert(0 <= c * lines) by (nonlinear_arith)
        requires
            0 <= c,
            0 <= lines,
    ;
}

/// Addresses grow with the row.
proof fn lemma_sand_rows(format: SandFormat, lines: int, offset: int, x: int, y: int, last: int)
    requires
        0 <= y <= last,
    ensures
        luma_index(format, lines, x, y) <= luma_index(format, lines, x, last),
        chroma_index(format, lines, offset, x, y) <= chroma_index(format, lines, offset, x, last),
{
    let upper = y * format.word_pixels();
    let lower = last * format.word_pixels();
    assert(upper <= lower) by (nonlinear_arith)
        requires
            y <= last,
            0 < format.word_pixels(),
            upper == y * format.word_pixels(),
            lower == last * format.word_pixels(),
    ;
    assert(upper / 2 * SAND_STRIDE <= lower / 2 * SAND_STRIDE);
}

/// Whether the luma and chroma of every kept pixel lie within a frame of `len` words.
pub fn sand_fits(
    format: SandFormat,
    len: usize,
    size: (usize, usize),
    modifier: u64,
    offset: usize,
) -> (r: bool)
    requires
        is_sand128(modifier),
    ensures
        r == sand_readable(
            format,
            len as int,
            size.0 as int,
            size.1 as int,
            modifier,
            offset as int,
        ),
{
    let lines: u128 = lines_of(modifier) as u128;
    let colpx: u128 = format.pixels_per_column() as u128;
    let decim: u128 = format.pixels_per_word() as u128;
    let width: u128 = size.0 as u128 / decim;
    let height: u128 = size.1 as u128 / decim;
    if height == 0 {
        return true;
    }
    let y: u128 = height - 1;
    let ty: u128 = y * decim;
    let mut x: u128 = 0;
    while x < width
        invariant
            x <= width,
            is_sand128(modifier),
            lines == sand_lines(modifier),
            lines < 65536,
            colpx == format.column_pixels(),
            decim == format.word_pixels(),
            width == size.0 as int / format.word_pixels(),
            height == size.1 as int / format.word_pixels(),
            height > 0,
            y == height - 1,
            ty == y * decim,
            ty <= usize::MAX,
            forall|px: int, py: int|
                #![trigger luma_index(format, lines as int, px, py)]
                #![trigger chroma_index(format, lines as int, offset as int, px, py)]
                0 <= px < x && 0 <= py < height ==> {
                    &&& luma_index(format, lines as int, px, py) < len
                    &&& chroma_index(format, lines as int, offset as int, px, py) < len
                },
        decreases width - x,
    {
        let tx: u128 = x * decim;
        proof {
            lemma_sand_sums(format, lines as int, offset as int, x as int, y as int);
        }
        let column: u128 = tx / colpx * 32;
        assert(column * lines <= 0x1_0000_0000_0000_0000 * 65536) by (nonlinear_arith)
            requires
                0 <= column <= 0x1_0000_0000_0000_0000,
                0 <= lines <= 65536,
        ;
        let start: u128 = column * lines;
        let word: u128 = tx % colpx / decim;
        let luma: u128 = start + ty * 32 + word;
        let chroma: u128 = start + offset as u128 / 4 + ty / 2 * 32 + word / 2 * 2 + 1;
        assert(luma == luma_index(format, lines as int, x as int, y as int));
        assert(chroma == chroma_index(format, lines as int, offset as int, x as int, y as int));
        if luma >= len as u128 || chroma >= len as u128 {
            return false;
        }
        proof {
            assert forall|px: int, py: int|
                #![trigger luma_index(format, lines as int, px, py)]
                #![trigger chroma_index(format, lines as int, offset as int, px, py)]
                0 <= px < x + 1 && 0 <= py < height implies {
                &&& luma_index(format, lines as int, px, py) < len
                &&& chroma_index(format, lines as int, offset as int, px, py) < len
            } by {
                if px == x {
                    lemma_sand_rows(
                        format,
                        lines as int,
                        offset as int,
                        x as int,
                        py,
                        y as int,
                    );
                }
            }
        }
        x += 1;
    }
    true
}

/// The samples that a word of luma and a word of chroma stand for.
fn sand_pixel(format: SandFormat, luma: u32, chroma: u32) -> (r: YUV420Pixel)
    ensures
        (r.y as int, r.u as int, r.v as int) == format.samples(luma, chroma),
{
    match format {
        SandFormat::P030 => {
            assert((luma >> 2) as u8 == luma / 4 % 256) by (bit_vector);
            assert((chroma >> 12) as u8 == chroma / 4096 % 256) by (bit_vector);
            assert((chroma >> 2) as u8 == chroma / 4 % 256) by (bit_vector);
            YUV420Pixel::new((luma >> 2) as u8, (chroma >> 12) as u8, (chroma >> 2) as u8)
        },
        SandFormat::Nv12 => {
            assert((luma >> 0) as u8 == luma % 256) by (bit_vector);
            assert((chroma >> 0) as u8 == chroma % 256) by (bit_vector);
            assert((chroma >> 8) as u8 == chroma / 256 % 256) by (bit_vector);
            YUV420Pixel::new((luma >> 0) as u8, (chroma >> 0) as u8, (chroma >> 8) as u8)
        },
    }
}

/// Thins a SAND128 frame, reading one word of luma and one of chroma for each pixel kept.
fn decode_sand_image(
    format: SandFormat,
    plane: &[u32],
    size: (usize, usize),
    modifier: u64,
    offset: usize,
) -> (img: YuvImage)
    requires
        is_sand128(modifier),
        sand_readable(
            format,
            plane@.len() as int,
            size.0 as int,
            size.1 as int,
            modifier,
            offset as int,
        ),
        sand_image_fits(format, plane@.len() as int, size.0 as int, size.1 as int),
    ensures
        is_sand_decode(format, plane@, size, modifier, offset as int, img),
{
    let len: usize = plane.len();
    let lines: usize = lines_of(modifier);
    let colpx: usize = format.pixels_per_column();
    let decim: usize = format.pixels_per_word();
    let width: usize = size.0 / decim;
    let height: usize = size.1 / decim;
    assert(0 <= width * height && 3 * width * height == 3 * (width * height)) by (nonlinear_arith)
        requires
            0 <= width,
            0 <= height,
    ;
    let mut pixels: Vec<YUV420Pixel> = Vec::with_capacity(width * height);
    let mut y: usize = 0;
    while y < height
        invariant
            y <= height,
            len == plane@.len(),
            lines == sand_lines(modifier),
            colpx == format.column_pixels(),
            decim == format.word_pixels(),
            width == size.0 as int / format.word_pixels(),
            height == size.1 as int / format.word_pixels(),
            sand_readable(
                format,
                plane@.len() as int,
                size.0 as int,
                size.1 as int,
                modifier,
                offset as int,
            ),
            pixels@.len() == y * width,
            decoded(format, plane@, modifier, offset as int, width as int, pixels@),
        decreases height - y,
    {
        let ty: usize = y * decim;
        let mut x: usize = 0;
        while x < width
            invariant
                x <= width,
                y < height,
                len == plane@.len(),
                lines == sand_lines(modifier),
                colpx == format.column_pixels(),
                decim == format.word_pixels(),
                width == size.0 as int / format.word_pixels(),
                height == size.1 as int / format.word_pixels(),
                ty == y * decim,
                sand_readable(
                    format,
                    plane@.len() as int,
                    size.0 as int,
                    size.1 as int,
                    modifier,
                    offset as int,
                ),
                pixels@.len() == y * width + x,
                decoded(format, plane@, modifier, offset as int, width as int, pixels@),
            decreases width - x,
        {
            proof {
                lemma_sand_sums(format, lines as int, offset as int, x as int, y as int);
                assert(luma_index(format, sand_lines(modifier), x as int, y as int) < len);
            }
            let tx: usize = x * decim;
            let col_offset: usize = tx / colpx * SAND_STRIDE * lines;
            let x_mod: usize = tx % colpx / decim;
            let ypx: u32 = plane[col_offset + ty * SAND_STRIDE + x_mod];
            let rx: usize = x_mod / 2 * 2;
            let crcind: usize = col_offset + offset / 4 + ty / 2 * SAND_STRIDE + rx;
            let crcbpx: u32 = plane[crcind + 1];
            let ghost before = pixels@;
            pixels.push(sand_pixel(format, ypx, crcbpx));
            proof {
                lemma_fundamental_div_mod_converse(
                    y * width + x,
                    width as int,
                    y as int,
                    x as int,
                );
                assert forall|n: int| 0 <= n < pixels@.len() implies decoded_at(
                    format,
                    plane@,
                    modifier,
                    offset as int,
                    width as int,
                    pixels@,
                    n,
                ) by {
                    if n < before.len() {
                        assert(decoded_at(
                            format,
                            plane@,
                            modifier,
                            offset as int,
                            width as int,
                            before,
                            n,
                        ));
                    }
                }
            }
            x += 1;
        }
        assert((y + 1) * width == y * width + width) by (nonlinear_arith);
        y += 1;
    }
    assert(height * width == width * height) by (nonlinear_arith);
    let img: YuvImage = YuvImage { width, height, pixels };
    proof {
        assert forall|x: int, y: int| 0 <= x < img.width && 0 <= y < img.height implies {
            let p = #[trigger] img.at(x, y);
            (p.y as int, p.u as int, p.v as int) == format.samples(
                plane@[luma_index(format, sand_lines(modifier), x, y)],
                plane@[chroma_index(format, sand_lines(modifier), offset as int, x, y)],
            )
        } by {
            let n = y * width + x;
            assert(0 <= n < width * height) by (nonlinear_arith)
                requires
                    n == y * width + x,
                    0 <= x < width,
                    0 <= y,
                    y + 1 <= height,
            ;
            lemma_fundamental_div_mod_converse(n, width as int, y, x);
            assert(decoded_at(format, plane@, modifier, offset as int, width as int, pixels@, n));
        }
    }
    img
}

/// Whether pixel `n`, counted row by row, has been read from its words.
spec fn decoded_at(
    format: SandFormat,
    plane: Seq<u32>,
    modifier: u64,
    offset: int,
    width: int,
    pixels: Seq<YUV420Pixel>,
    n: int,
) -> bool {
    let p = pixels[n];
    (p.y as int, p.u as int, p.v as int) == format.samples(
        plane[luma_index(format, sand_lines(modifier), n % width, n / width)],
        plane[chroma_index(format, sand_lines(modifier), offset, n % width, n / width)],
    )
}

spec fn decoded(
    format: SandFormat,
    plane: Seq<u32>,
    modifier: u64,
    offset: int,
    width: int,
    pixels: Seq<YUV420Pixel>,
) -> bool {
    forall|n: int|
        0 <= n < pixels.len() ==> decoded_at(
            format,
            plane,
            modifier,
            offset,
            width,
            pixels,
            n,
        )
}

/// Decodes a P030 frame (ten bits for each sample) to a third of its size.
///
/// The luma keeps the upper eight bits of the first of the three samples in a word.
///
/// The modifier is that of the SAND128 layout, the words that are read lie within the frame, and
/// the image fits in memory.
pub fn decode_p030_image(
    plane: &[u32],
    size: (usize, usize),
    modifier: u64,
    offset: usize,
) -> (img: YuvImage)
    requires
        is_sand128(modifier),
        sand_readable(
            SandFormat::P030,
            plane@.len() as int,
            size.0 as int,
            size.1 as int,
            modifier,
            offset as int,
        ),
        sand_image_fits(
            SandFormat::P030,
            plane@.len() as int,
            size.0 as int,
            size.1 as int,
        ),
    ensures
        is_sand_decode(SandFormat::P030, plane@, size, modifier, offset as int, img),
{
    decode_sand_image(SandFormat::P030, plane, size, modifier, offset)
}

/// Decodes an NV12 frame (eight bits for each sample) to a quarter of its size.
///
/// The modifier is that of the SAND128 layout, the words that are read lie within the frame, and
/// the image fits in memory.
pub fn decode_nv12_image(
    plane: &[u32],
    size: (usize, usize),
    modifier: u64,
    offset: usize,
) -> (img: YuvImage)
    requires
        is_sand128(modifier),
        sand_readable(
            SandFormat::Nv12,
            plane@.len() as int,
            size.0 as int,
            size.1 as int,
            modifier,
            offset as int,
        ),
        sand_image_fits(
            SandFormat::Nv12,
            plane@.len() as int,
            size.0 as int,
            size.1 as int,
        ),
    ensures
        is_sand_decode(SandFormat::Nv12, plane@, size, modifier, offset as int, img),
{
    decode_sand_image(SandFormat::Nv12, plane, size, modifier, offset)
}

/// A frame whose width is a whole number of columns, and whose columns are tall enough for its luma
/// and for its chroma, is read within the words that `sand_length` gives, and there are no fewer of
/// them than there are pixels kept.
pub proof fn lemma_whole_columns_readable(
    format: SandFormat,
    width: int,
    height: int,
    modifier: u64,
    offset: int,
)
    requires
        0 <= width,
        0 <= height,
        0 <= offset,
        width % format.column_pixels() == 0,
        height <= sand_lines(modifier),
        offset / 4 + height / 2 * SAND_STRIDE <= sand_lines(modifier) * SAND_STRIDE,
    ensures
        sand_readable(
            format,
            sand_words(format, width, modifier),
            width,
            height,
            modifier,
            offset,
        ),
        width / format.word_pixels() * (height / format.word_pixels()) <= sand_words(
            format,
            width,
            modifier,
        ),
        sand_image_fits(format, sand_words(format, width, modifier), width, height),
{
    let lines = sand_lines(modifier);
    let columns = width / format.column_pixels();
    let w = width / format.word_pixels();
    let h = height / format.word_pixels();
    assert(w == columns * SAND_STRIDE);
    assert(w * h <= lines * columns * SAND_STRIDE) by (nonlinear_arith)
        requires
            w == columns * SAND_STRIDE,
            0 <= w,
            0 <= h <= lines,
    ;
    assert forall|x: int, y: int|
        #![trigger luma_index(format, lines, x, y)]
        #![trigger chroma_index(format, lines, offset, x, y)]
        0 <= x < width / format.word_pixels() && 0 <= y < height / format.word_pixels() implies {
        &&& luma_index(format, lines, x, y) < sand_words(format, width, modifier)
        &&& chroma_index(format, lines, offset, x, y) < sand_words(format, width, modifier)
    } by {
        let c = sand_column(format, x);
        assert(0 <= x * format.word_pixels() < width && 0 <= y * format.word_pixels() < height);
        assert(0 <= c < columns);
        assert(c * SAND_STRIDE * lines + SAND_STRIDE * lines <= lines * columns * SAND_STRIDE)
            by (nonlinear_arith)
            requires
                c + 1 <= columns,
                0 <= lines,
                SAND_STRIDE == 32,
        ;
        lemma_sand_sums(format, lines, offset, x, y);
    }
}

/// A frame decodes to one image only: its words, its size, the modifier and the offset of the chroma
/// settle every pixel.
pub proof fn lemma_frame_settles_image(
    format: SandFormat,
    plane: Seq<u32>,
    size: (usize, usize),
    modifier: u64,
    offset: int,
    a: YuvImage,
    b: YuvImage,
)
    requires
        is_sand_decode(format, plane, size, modifier, offset, a),
        is_sand_decode(format, plane, size, modifier, offset, b),
    ensures
        a.width == b.width,
        a.height == b.height,
        a.pixels@ == b.pixels@,
{
    let w = a.width as int;
    assert forall|n: int| 0 <= n < a.pixels@.len() implies a.pixels@[n] == b.pixels@[n] by {
        let x = n % w;
        let y = n / w;
        assert(w > 0) by (nonlinear_arith)
            requires
                0 <= n < w * a.height,
                0 <= w,
        ;
        lemma_fundamental_div_mod(n, w);
        assert(y * w + x == n && 0 <= x < w && 0 <= y < a.height) by (nonlinear_arith)
            requires
                n == w * y + x,
                0 <= x < w,
                0 <= n < w * a.height,
        ;
        assert(a.at(x, y) == b.at(x, y));
    }
}

/// A SAND128 modifier carries the column height that it was made of.
pub(crate) proof fn lemma_modifier_lines(modifier: u64, lines: int)
    requires
        0 <= lines < 0x1_0000,
        modifier == 0x0700_0000_0000_0004 + 0x100 * lines,
    ensures
        sand_lines(modifier) == lines,
{
}

/// Sample `k` of a word that holds three of ten bits, the first in the lowest bits.
pub open spec fn ten_bits(word: u32, k: int) -> int {
    if k == 0 {
        word as int % 0x400
    } else if k == 1 {
        word as int / 0x400 % 0x400
    } else {
        word as int / 0x10_0000 % 0x400
    }
}

proof fn lemma_upper_eight_bits(word: u32)
    ensures
        ten_bits(word, 0) / 4 == word as int / 4 % 256,
        ten_bits(word, 1) / 4 == word as int / 4096 % 256,
{
    assert(word % 0x400 / 4 == word / 4 % 256 && word / 0x400 % 0x400 / 4 == word / 4096 % 256)
        by (bit_vector);
}

/// Sample `k` of a word that holds four of eight bits, the first in the lowest bits.
pub open spec fn eight_bits(word: u32, k: int) -> int {
    if k == 0 {
        word as int % 0x100
    } else if k == 1 {
        word as int / 0x100 % 0x100
    } else if k == 2 {
        word as int / 0x1_0000 % 0x100
    } else {
        word as int / 0x100_0000 % 0x100
    }
}

/// The SAND128 modifiers are those that are made of the bare one and a column height of 16 bits.
pub proof fn lemma_sand128_modifiers(modifier: u64, r: bool)
    requires
        call_ensures(has_sand128, (modifier,), r),
    ensures
        r == exists|lines: int|
            0 <= lines < 0x1_0000 && modifier == 0x0700_0000_0000_0004 + #[trigger] (0x100 * lines),
{
    lemma_sand128_lines(modifier);
}

pub(crate) proof fn lemma_sand128_lines(modifier: u64)
    ensures
        is_sand128(modifier) == exists|lines: int|
            0 <= lines < 0x1_0000 && modifier == 0x0700_0000_0000_0004 + #[trigger] (0x100 * lines),
{
    if is_sand128(modifier) {
        let lines = sand_lines(modifier);
        assert(0 <= lines < 0x1_0000 && modifier == 0x0700_0000_0000_0004 + 0x100 * lines);
    }
}

/// The word that holds the luma of the pixel at column `sx` and row `sy` of a P030 frame: columns of
/// 96 pixels and `lines` rows, one after the other, with 3 pixels to a word.
pub open spec fn p030_luma_word(lines: int, sx: int, sy: int) -> int {
    32 * (lines * (sx / 96)) + 32 * sy + sx % 96 / 3
}

/// The luma of the pixel at column `sx` and row `sy` of a P030 frame.
pub open spec fn p030_luma(plane: Seq<u32>, lines: int, sx: int, sy: int) -> int {
    ten_bits(plane[p030_luma_word(lines, sx, sy)], sx % 96 % 3)
}

/// The word that holds a chroma sample of a P030 frame, `offset` bytes into a column: that of the
/// pair at column `cx` and row `cy`, blue before red, with 48 pairs to a row.
pub open spec fn p030_chroma_word(lines: int, offset: int, cx: int, cy: int, red: int) -> int {
    32 * (lines * (cx / 48)) + offset / 4 + 32 * cy + (2 * (cx % 48) + red) / 3
}

/// A chroma sample of a P030 frame.
pub open spec fn p030_chroma(
    plane: Seq<u32>,
    lines: int,
    offset: int,
    cx: int,
    cy: int,
    red: int,
) -> int {
    ten_bits(
        plane[p030_chroma_word(lines, offset, cx, cy, red)],
        (2 * (cx % 48) + red) % 3,
    )
}

/// A P030 frame decodes to a third of its width and of its height, rounded down.
pub proof fn lemma_p030_divides_size(
    plane: &[u32],
    size: (usize, usize),
    modifier: u64,
    offset: usize,
    img: YuvImage,
)
    requires
        call_ensures(decode_p030_image, (plane, size, modifier, offset), img),
    ensures
        3 * img.width <= size.0 < 3 * img.width + 3,
        3 * img.height <= size.1 < 3 * img.height + 3,
        img.pixels@.len() == img.width * img.height,
{
}

/// A P030 frame decodes, at column `x` and row `y`, to the luma of its pixel 3 times
/// as far from the left and from the top, and to chroma of the row that this pixel shares with its
/// neighbour above or below: there are half as many rows of chroma as of luma.
pub proof fn lemma_p030_shows_frame(
    plane: &[u32],
    size: (usize, usize),
    modifier: u64,
    offset: usize,
    img: YuvImage,
    lines: int,
    x: int,
    y: int,
)
    requires
        call_ensures(decode_p030_image, (plane, size, modifier, offset), img),
        0 <= lines < 0x1_0000,
        modifier == 0x0700_0000_0000_0004 + 0x100 * lines,
        0 <= x < size.0 as int / 3,
        0 <= y < size.1 as int / 3,
    ensures
        img.pixels@[img.width * y + x].y == p030_luma(plane@, lines, 3 * x, 3 * y) / 4,
        img.pixels@[img.width * y + x].u == p030_chroma(
            plane@,
            lines,
            offset as int,
            x / 2 * 3 + 2,
            3 * y / 2,
            0,
        ) / 4,
        img.pixels@[img.width * y + x].v == p030_chroma(
            plane@,
            lines,
            offset as int,
            x / 2 * 3 + 1,
            3 * y / 2,
            1,
        ) / 4,
{
    lemma_modifier_lines(modifier, lines);
    lemma_p030_samples(plane@, lines, offset as int, x, y);
    assert(img.width * y == y * img.width) by (nonlinear_arith);
    let p = img.at(x, y);
    assert((p.y as int, p.u as int, p.v as int) == SandFormat::P030.samples(
        plane@[luma_index(SandFormat::P030, sand_lines(modifier), x, y)],
        plane@[chroma_index(SandFormat::P030, sand_lines(modifier), offset as int, x, y)],
    ));
}

proof fn lemma_p030_samples(plane: Seq<u32>, lines: int, offset: int, x: int, y: int)
    requires
        0 <= x,
        0 <= y,
    ensures
        SandFormat::P030.samples(
            plane[luma_index(SandFormat::P030, lines, x, y)],
            plane[chroma_index(SandFormat::P030, lines, offset, x, y)],
        ) == (
            p030_luma(plane, lines, 3 * x, 3 * y) / 4,
            p030_chroma(plane, lines, offset, x / 2 * 3 + 2, 3 * y / 2, 0) / 4,
            p030_chroma(plane, lines, offset, x / 2 * 3 + 1, 3 * y / 2, 1) / 4,
        ),
{
    lemma_p030_places(lines, offset, x, y);
    lemma_upper_eight_bits(plane[luma_index(SandFormat::P030, lines, x, y)]);
    lemma_upper_eight_bits(plane[chroma_index(SandFormat::P030, lines, offset, x, y)]);
}

proof fn lemma_p030_places(lines: int, offset: int, x: int, y: int)
    requires
        0 <= x,
        0 <= y,
    ensures
        luma_index(SandFormat::P030, lines, x, y) == p030_luma_word(lines, 3 * x, 3 * y),
        3 * x % 96 % 3 == 0,
        chroma_index(SandFormat::P030, lines, offset, x, y) == p030_chroma_word(
            lines,
            offset,
            x / 2 * 3 + 2,
            3 * y / 2,
            0,
        ),
        chroma_index(SandFormat::P030, lines, offset, x, y) == p030_chroma_word(
            lines,
            offset,
            x / 2 * 3 + 1,
            3 * y / 2,
            1,
        ),
        (2 * ((x / 2 * 3 + 2) % 48)) % 3 == 1,
        (2 * ((x / 2 * 3 + 1) % 48) + 1) % 3 == 0,
{
    let c = x / 32;
    let k = x % 32 / 2;
    assert(3 * x / 96 == c && 3 * x % 96 == 3 * (x % 32));
    assert(sand_column(SandFormat::P030, x) == c && sand_word(SandFormat::P030, x) == x % 32);
    assert(x / 2 == 16 * c + k);
    assert((x / 2 * 3 + 2) / 48 == c && (x / 2 * 3 + 2) % 48 == 3 * k + 2);
    assert((x / 2 * 3 + 1) / 48 == c && (x / 2 * 3 + 1) % 48 == 3 * k + 1);
    assert(c * SAND_STRIDE * lines == 32 * (lines * c)) by (nonlinear_arith)
        requires
            SAND_STRIDE == 32,
    ;
}

/// A P030 frame of `len` words is long enough exactly where they hold every word that is
/// read.
pub proof fn lemma_p030_fits_is_exact(
    len: usize,
    size: (usize, usize),
    modifier: u64,
    offset: usize,
    r: bool,
    lines: int,
)
    requires
        call_ensures(sand_fits, (SandFormat::P030, len, size, modifier, offset), r),
        0 <= lines < 0x1_0000,
        modifier == 0x0700_0000_0000_0004 + 0x100 * lines,
    ensures
        r == p030_reads_within(len as int, (size.0 as int, size.1 as int), lines, offset as int),
{
    lemma_modifier_lines(modifier, lines);
    lemma_p030_readable(
        len as int,
        (size.0 as int, size.1 as int),
        modifier,
        lines,
        offset as int,
    );
}

/// Whether every word that decoding a P030 frame reads lies within `len` words.
pub open spec fn p030_reads_within(len: int, size: (int, int), lines: int, offset: int) -> bool {
    forall|x: int, y: int|
        #![trigger p030_luma_word(lines, 3 * x, 3 * y)]
        0 <= x < size.0 / 3 && 0 <= y < size.1 / 3 ==> {
            &&& p030_luma_word(lines, 3 * x, 3 * y) < len
            &&& p030_chroma_word(lines, offset, x / 2 * 3 + 2, 3 * y / 2, 0) < len
            &&& p030_chroma_word(lines, offset, x / 2 * 3 + 1, 3 * y / 2, 1) < len
        }
}

pub(crate) proof fn lemma_p030_readable(
    len: int,
    size: (int, int),
    modifier: u64,
    lines: int,
    offset: int,
)
    requires
        0 <= lines < 0x1_0000,
        modifier == 0x0700_0000_0000_0004 + 0x100 * lines,
    ensures
        sand_readable(SandFormat::P030, len, size.0, size.1, modifier, offset)
            == p030_reads_within(len, size, lines, offset),
{
    lemma_modifier_lines(modifier, lines);
    let f = SandFormat::P030;
    if sand_readable(f, len, size.0, size.1, modifier, offset) {
        assert forall|x: int, y: int|
            #![trigger p030_luma_word(lines, 3 * x, 3 * y)]
            0 <= x < size.0 / 3 && 0 <= y < size.1 / 3 implies {
            &&& p030_luma_word(lines, 3 * x, 3 * y) < len
            &&& p030_chroma_word(lines, offset, x / 2 * 3 + 2, 3 * y / 2, 0) < len
            &&& p030_chroma_word(lines, offset, x / 2 * 3 + 1, 3 * y / 2, 1) < len
        } by {
            lemma_p030_places(lines, offset, x, y);
            assert(luma_index(f, sand_lines(modifier), x, y) < len);
        }
    }
    if p030_reads_within(len, size, lines, offset) {
        assert forall|x: int, y: int|
            #![trigger luma_index(f, sand_lines(modifier), x, y)]
            #![trigger chroma_index(f, sand_lines(modifier), offset, x, y)]
            0 <= x < size.0 / f.word_pixels() && 0 <= y < size.1 / f.word_pixels() implies {
            &&& luma_index(f, sand_lines(modifier), x, y) < len
            &&& chroma_index(f, sand_lines(modifier), offset, x, y) < len
        } by {
            lemma_p030_places(lines, offset, x, y);
            assert(p030_luma_word(lines, 3 * x, 3 * y) < len);
        }
    }
}

/// The words of a P030 frame are those of its whole columns, each 128 bytes wide.
pub proof fn lemma_p030_words_are_columns(width: usize, modifier: u64, r: usize, lines: int)
    requires
        call_ensures(sand_length, (SandFormat::P030, width, modifier), r),
        0 <= lines < 0x1_0000,
        modifier == 0x0700_0000_0000_0004 + 0x100 * lines,
    ensures
        4 * r == 128 * (lines * (width as int / 96)),
{
    lemma_modifier_lines(modifier, lines);
}

/// The word that holds the luma of the pixel at column `sx` and row `sy` of an NV12 frame: columns of
/// 128 pixels and `lines` rows, one after the other, with 4 pixels to a word.
pub open spec fn nv12_luma_word(lines: int, sx: int, sy: int) -> int {
    32 * (lines * (sx / 128)) + 32 * sy + sx % 128 / 4
}

/// The luma of the pixel at column `sx` and row `sy` of an NV12 frame.
pub open spec fn nv12_luma(plane: Seq<u32>, lines: int, sx: int, sy: int) -> int {
    eight_bits(plane[nv12_luma_word(lines, sx, sy)], sx % 128 % 4)
}

/// The word that holds a chroma sample of an NV12 frame, `offset` bytes into a column: that of the
/// pair at column `cx` and row `cy`, blue before red, with 64 pairs to a row.
pub open spec fn nv12_chroma_word(lines: int, offset: int, cx: int, cy: int, red: int) -> int {
    32 * (lines * (cx / 64)) + offset / 4 + 32 * cy + (2 * (cx % 64) + red) / 4
}

/// A chroma sample of an NV12 frame.
pub open spec fn nv12_chroma(
    plane: Seq<u32>,
    lines: int,
    offset: int,
    cx: int,
    cy: int,
    red: int,
) -> int {
    eight_bits(
        plane[nv12_chroma_word(lines, offset, cx, cy, red)],
        (2 * (cx % 64) + red) % 4,
    )
}

/// An NV12 frame decodes to a quarter of its width and of its height, rounded down.
pub proof fn lemma_nv12_divides_size(
    plane: &[u32],
    size: (usize, usize),
    modifier: u64,
    offset: usize,
    img: YuvImage,
)
    requires
        call_ensures(decode_nv12_image, (plane, size, modifier, offset), img),
    ensures
        4 * img.width <= size.0 < 4 * img.width + 4,
        4 * img.height <= size.1 < 4 * img.height + 4,
        img.pixels@.len() == img.width * img.height,
{
}

/// An NV12 frame decodes, at column `x` and row `y`, to the luma of its pixel 4 times
/// as far from the left and from the top, and to chroma of the row that this pixel shares with its
/// neighbour above or below: there are half as many rows of chroma as of luma.
pub proof fn lemma_nv12_shows_frame(
    plane: &[u32],
    size: (usize, usize),
    modifier: u64,
    offset: usize,
    img: YuvImage,
    lines: int,
    x: int,
    y: int,
)
    requires
        call_ensures(decode_nv12_image, (plane, size, modifier, offset), img),
        0 <= lines < 0x1_0000,
        modifier == 0x0700_0000_0000_0004 + 0x100 * lines,
        0 <= x < size.0 as int / 4,
        0 <= y < size.1 as int / 4,
    ensures
        img.pixels@[img.width * y + x].y == nv12_luma(plane@, lines, 4 * x, 4 * y),
        img.pixels@[img.width * y + x].u == nv12_chroma(
            plane@,
            lines,
            offset as int,
            x / 2 * 4 + 2,
            4 * y / 2,
            0,
        ),
        img.pixels@[img.width * y + x].v == nv12_chroma(
            plane@,
            lines,
            offset as int,
            x / 2 * 4 + 2,
            4 * y / 2,
            1,
        ),
{
    lemma_modifier_lines(modifier, lines);
    lemma_nv12_samples(plane@, lines, offset as int, x, y);
    assert(img.width * y == y * img.width) by (nonlinear_arith);
    let p = img.at(x, y);
    assert((p.y as int, p.u as int, p.v as int) == SandFormat::Nv12.samples(
        plane@[luma_index(SandFormat::Nv12, sand_lines(modifier), x, y)],
        plane@[chroma_index(SandFormat::Nv12, sand_lines(modifier), offset as int, x, y)],
    ));
}

proof fn lemma_nv12_samples(plane: Seq<u32>, lines: int, offset: int, x: int, y: int)
    requires
        0 <= x,
        0 <= y,
    ensures
        SandFormat::Nv12.samples(
            plane[luma_index(SandFormat::Nv12, lines, x, y)],
            plane[chroma_index(SandFormat::Nv12, lines, offset, x, y)],
        ) == (
            nv12_luma(plane, lines, 4 * x, 4 * y),
            nv12_chroma(plane, lines, offset, x / 2 * 4 + 2, 4 * y / 2, 0),
            nv12_chroma(plane, lines, offset, x / 2 * 4 + 2, 4 * y / 2, 1),
        ),
{
    lemma_nv12_places(lines, offset, x, y);
}

proof fn lemma_nv12_places(lines: int, offset: int, x: int, y: int)
    requires
        0 <= x,
        0 <= y,
    ensures
        luma_index(SandFormat::Nv12, lines, x, y) == nv12_luma_word(lines, 4 * x, 4 * y),
        4 * x % 128 % 4 == 0,
        chroma_index(SandFormat::Nv12, lines, offset, x, y) == nv12_chroma_word(
            lines,
            offset,
            x / 2 * 4 + 2,
            4 * y / 2,
            0,
        ),
        chroma_index(SandFormat::Nv12, lines, offset, x, y) == nv12_chroma_word(
            lines,
            offset,
            x / 2 * 4 + 2,
            4 * y / 2,
            1,
        ),
        (2 * ((x / 2 * 4 + 2) % 64)) % 4 == 0,
        (2 * ((x / 2 * 4 + 2) % 64) + 1) % 4 == 1,
{
    let c = x / 32;
    let k = x % 32 / 2;
    assert(4 * x / 128 == c && 4 * x % 128 == 4 * (x % 32));
    assert(sand_column(SandFormat::Nv12, x) == c && sand_word(SandFormat::Nv12, x) == x % 32);
    assert(x / 2 == 16 * c + k);
    assert((x / 2 * 4 + 2) / 64 == c && (x / 2 * 4 + 2) % 64 == 4 * k + 2);
    assert((x / 2 * 4 + 2) / 64 == c && (x / 2 * 4 + 2) % 64 == 4 * k + 2);
    assert(c * SAND_STRIDE * lines == 32 * (lines * c)) by (nonlinear_arith)
        requires
            SAND_STRIDE == 32,
    ;
}

/// An NV12 frame of `len` words is long enough exactly where they hold every word that is
/// read.
pub proof fn lemma_nv12_fits_is_exact(
    len: usize,
    size: (usize, usize),
    modifier: u64,
    offset: usize,
    r: bool,
    lines: int,
)
    requires
        call_ensures(sand_fits, (SandFormat::Nv12, len, size, modifier, offset), r),
        0 <= lines < 0x1_0000,
        modifier == 0x0700_0000_0000_0004 + 0x100 * lines,
    ensures
        r == nv12_reads_within(len as int, (size.0 as int, size.1 as int), lines, offset as int),
{
    lemma_modifier_lines(modifier, lines);
    lemma_nv12_readable(
        len as int,
        (size.0 as int, size.1 as int),
        modifier,
        lines,
        offset as int,
    );
}

/// Whether every word that decoding an NV12 frame reads lies within `len` words.
pub open spec fn nv12_reads_within(len: int, size: (int, int), lines: int, offset: int) -> bool {
    forall|x: int, y: int|
        #![trigger nv12_luma_word(lines, 4 * x, 4 * y)]
        0 <= x < size.0 / 4 && 0 <= y < size.1 / 4 ==> {
            &&& nv12_luma_word(lines, 4 * x, 4 * y) < len
            &&& nv12_chroma_word(lines, offset, x / 2 * 4 + 2, 4 * y / 2, 0) < len
            &&& nv12_chroma_word(lines, offset, x / 2 * 4 + 2, 4 * y / 2, 1) < len
        }
}

pub(crate) proof fn lemma_nv12_readable(
    len: int,
    size: (int, int),
    modifier: u64,
    lines: int,
    offset: int,
)
    requires
        0 <= lines < 0x1_0000,
        modifier == 0x0700_0000_0000_0004 + 0x100 * lines,
    ensures
        sand_readable(SandFormat::Nv12, len, size.0, size.1, modifier, offset)
            == nv12_reads_within(len, size, lines, offset),
{
    lemma_modifier_lines(modifier, lines);
    let f = SandFormat::Nv12;
    if sand_readable(f, len, size.0, size.1, modifier, offset) {
        assert forall|x: int, y: int|
            #![trigger nv12_luma_word(lines, 4 * x, 4 * y)]
            0 <= x < size.0 / 4 && 0 <= y < size.1 / 4 implies {
            &&& nv12_luma_word(lines, 4 * x, 4 * y) < len
            &&& nv12_chroma_word(lines, offset, x / 2 * 4 + 2, 4 * y / 2, 0) < len
            &&& nv12_chroma_word(lines, offset, x / 2 * 4 + 2, 4 * y / 2, 1) < len
        } by {
            lemma_nv12_places(lines, offset, x, y);
            assert(luma_index(f, sand_lines(modifier), x, y) < len);
        }
    }
    if nv12_reads_within(len, size, lines, offset) {
        assert forall|x: int, y: int|
            #![trigger luma_index(f, sand_lines(modifier), x, y)]
            #![trigger chroma_index(f, sand_lines(modifier), offset, x, y)]
            0 <= x < size.0 / f.word_pixels() && 0 <= y < size.1 / f.word_pixels() implies {
            &&& luma_index(f, sand_lines(modifier), x, y) < len
            &&& chroma_index(f, sand_lines(modifier), offset, x, y) < len
        } by {
            lemma_nv12_places(lines, offset, x, y);
            assert(nv12_luma_word(lines, 4 * x, 4 * y) < len);
        }
    }
}

/// The words of an NV12 frame are those of its whole columns, each 128 bytes wide.
pub proof fn lemma_nv12_words_are_columns(width: usize, modifier: u64, r: usize, lines: int)
    requires
        call_ensures(sand_length, (SandFormat::Nv12, width, modifier), r),
        0 <= lines < 0x1_0000,
        modifier == 0x0700_0000_0000_0004 + 0x100 * lines,
    ensures
        4 * r == 128 * (lines * (width as int / 128)),
{
    lemma_modifier_lines(modifier, lines);
}

/// Where every row of luma of a P030 frame holds one level, and every row of chroma another, the image
/// shows at row `y` the level of row 3 * y of luma and that of the row of chroma half as far down.
pub proof fn lemma_p030_rows(
    plane: &[u32],
    size: (usize, usize),
    modifier: u64,
    offset: usize,
    img: YuvImage,
    lines: int,
    luma: spec_fn(int) -> int,
    chroma: spec_fn(int) -> int,
    x: int,
    y: int,
)
    requires
        call_ensures(decode_p030_image, (plane, size, modifier, offset), img),
        0 <= lines < 0x1_0000,
        modifier == 0x0700_0000_0000_0004 + 0x100 * lines,
        forall|sx: int, sy: int|
            0 <= sx && 0 <= sy < size.1 ==> #[trigger] p030_luma(plane@, lines, sx, sy) == luma(sy),
        forall|cx: int, cy: int, red: int|
            0 <= cx && 0 <= cy && 2 * cy < size.1 ==> #[trigger] p030_chroma(
                plane@,
                lines,
                offset as int,
                cx,
                cy,
                red,
            ) == chroma(cy),
        0 <= x < size.0 as int / 3,
        0 <= y < size.1 as int / 3,
    ensures
        img.pixels@[img.width * y + x].y == luma(3 * y) / 4,
        img.pixels@[img.width * y + x].u == chroma(3 * y / 2) / 4,
        img.pixels@[img.width * y + x].v == chroma(3 * y / 2) / 4,
{
    lemma_p030_shows_frame(plane, size, modifier, offset, img, lines, x, y);
}

/// Where every row of luma of an NV12 frame holds one level, and every row of chroma another, the image
/// shows at row `y` the level of row 4 * y of luma and that of the row of chroma half as far down.
pub proof fn lemma_nv12_rows(
    plane: &[u32],
    size: (usize, usize),
    modifier: u64,
    offset: usize,
    img: YuvImage,
    lines: int,
    luma: spec_fn(int) -> int,
    chroma: spec_fn(int) -> int,
    x: int,
    y: int,
)
    requires
        call_ensures(decode_nv12_image, (plane, size, modifier, offset), img),
        0 <= lines < 0x1_0000,
        modifier == 0x0700_0000_0000_0004 + 0x100 * lines,
        forall|sx: int, sy: int|
            0 <= sx && 0 <= sy < size.1 ==> #[trigger] nv12_luma(plane@, lines, sx, sy) == luma(sy),
        forall|cx: int, cy: int, red: int|
            0 <= cx && 0 <= cy && 2 * cy < size.1 ==> #[trigger] nv12_chroma(
                plane@,
                lines,
                offset as int,
                cx,
                cy,
                red,
            ) == chroma(cy),
        0 <= x < size.0 as int / 4,
        0 <= y < size.1 as int / 4,
    ensures
        img.pixels@[img.width * y + x].y == luma(4 * y),
        img.pixels@[img.width * y + x].u == chroma(4 * y / 2),
        img.pixels@[img.width * y + x].v == chroma(4 * y / 2),
{
    lemma_nv12_shows_frame(plane, size, modifier, offset, img, lines, x, y);
}

} // verus!
