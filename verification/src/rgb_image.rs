//! The RGB images that frames are handed on as.

use vstd::prelude::*;

verus! {

/// An image of eight-bit red, green and blue samples, held by the `image` crate's `RgbImage`.
///
/// What the crate does with it is stated by `raw_image_from_raw`, `raw_image_dimensions` and
/// `raw_image_bytes`, over `rgb_size` and `rgb_bytes`.
#[verifier::external_body]
pub struct RgbImage {
    inner: image::RgbImage,
}

/// The width and height of an image, in pixels.
pub uninterp spec fn rgb_size(img: RgbImage) -> (u32, u32);

/// The samples of an image: rows from the top, pixels from the left, red before green before blue.
pub uninterp spec fn rgb_bytes(img: RgbImage) -> Seq<u8>;

/// Where the samples of the pixel at column `x` and row `y` begin, in an image `width` wide.
pub open spec fn pixel_offset(width: int, x: int, y: int) -> int {
    (y * width + x) * 3
}

/// Whether the samples of a `width` by `height` image fit in memory.
pub open spec fn image_fits(width: int, height: int) -> bool {
    3 * width <= usize::MAX && 3 * width * height <= isize::MAX
}

impl RgbImage {
    /// The width in pixels.
    pub open spec fn spec_width(self) -> int {
        rgb_size(self).0 as int
    }

    /// The height in pixels.
    pub open spec fn spec_height(self) -> int {
        rgb_size(self).1 as int
    }

    /// The red, green and blue samples at column `x` and row `y`.
    pub open spec fn pixel(self, x: int, y: int) -> (u8, u8, u8) {
        let at = pixel_offset(self.spec_width(), x, y);
        (rgb_bytes(self)[at], rgb_bytes(self)[at + 1], rgb_bytes(self)[at + 2])
    }

    /// Makes an image of `width` by `height` pixels from its samples, or nothing where there are
    /// too few of them. Samples beyond the last pixel are kept.
    pub fn from_raw(width: u32, height: u32, samples: Vec<u8>) -> (r: Option<RgbImage>)
        ensures
            r is Some <==> 3 * width <= usize::MAX && 3 * width * height <= samples@.len(),
            r matches Some(img) ==> rgb_size(img) == (width, height) && rgb_bytes(img)
                == samples@,
    {
        raw_image_from_raw(width, height, samples)
    }

    /// The width and height in pixels.
    pub fn dimensions(&self) -> (r: (u32, u32))
        ensures
            r == rgb_size(*self),
            3 * r.0 <= usize::MAX,
    {
        raw_image_dimensions(self)
    }

    /// The samples, row by row.
    pub fn as_raw(&self) -> (r: &Vec<u8>)
        ensures
            r@ == rgb_bytes(*self),
            3 * self.spec_width() * self.spec_height() <= r@.len(),
    {
        raw_image_bytes(self)
    }
}

/// Calls `image::RgbImage::from_raw`, which takes the samples as they are and refuses them where
/// three for each pixel do not fit in the buffer. It forms `3 * width` first and refuses also
/// where that exceeds `usize`.
#[verifier::external_body]
fn raw_image_from_raw(width: u32, height: u32, samples: Vec<u8>) -> (r: Option<RgbImage>)
    ensures
        (r is Some) == (3 * width <= usize::MAX && 3 * width * height <= samples@.len()),
        r is Some ==> rgb_size(r->0) == (width, height),
        r is Some ==> rgb_bytes(r->0) == samples@,
{
    image::RgbImage::from_raw(width, height, samples).map(|inner| RgbImage { inner })
}

/// Calls `image::RgbImage::dimensions`, which returns the width and height that the image was
/// made with. Images come from `from_raw` alone, so the samples of a row fit in `usize`.
#[verifier::external_body]
fn raw_image_dimensions(img: &RgbImage) -> (r: (u32, u32))
    ensures
        r == rgb_size(*img),
        3 * r.0 <= usize::MAX,
{
    img.inner.dimensions()
}

/// Calls `image::RgbImage::as_raw`, which returns the whole buffer. Images come from `from_raw`
/// alone, so there are at least three samples for each pixel.
#[verifier::external_body]
fn raw_image_bytes(img: &RgbImage) -> (r: &Vec<u8>)
    ensures
        r@ == rgb_bytes(*img),
        3 * rgb_size(*img).0 * rgb_size(*img).1 <= r@.len(),
{
    img.inner.as_raw()
}

/// What an image was made from can be read back: its size, its samples, and the pixel at column `x`
/// and row `y` as three samples after those of all the rows above and of all the pixels to its left.
pub proof fn lemma_image_reads_back(
    width: u32,
    height: u32,
    samples: Vec<u8>,
    img: RgbImage,
    size: (u32, u32),
    raw: &Vec<u8>,
    x: int,
    y: int,
)
    requires
        call_ensures(RgbImage::from_raw, (width, height, samples), Some(img)),
        call_ensures(RgbImage::dimensions, (&img,), size),
        call_ensures(RgbImage::as_raw, (&img,), raw),
    ensures
        size == (width, height),
        raw@ == samples@,
        3 * (width * height) <= raw@.len(),
        img.pixel(x, y) == (
            raw@[3 * (width * y) + 3 * x],
            raw@[3 * (width * y) + 3 * x + 1],
            raw@[3 * (width * y) + 3 * x + 2],
        ),
{
    assert(3 * width * height == 3 * (width * height)) by (nonlinear_arith);
    assert((y * width + x) * 3 == 3 * (width * y) + 3 * x) by (nonlinear_arith);
}

/// Samples are refused exactly where there are fewer than three for each pixel or those of a row
/// cannot be counted.
pub proof fn lemma_short_buffers_are_refused(width: u32, height: u32, samples: Vec<u8>)
    requires
        call_ensures(RgbImage::from_raw, (width, height, samples), None),
    ensures
        samples@.len() < 3 * (width * height) || 3 * width > usize::MAX,
{
    assert(3 * width * height == 3 * (width * height)) by (nonlinear_arith);
}

} // verus!
