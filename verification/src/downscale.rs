//! Shrinking an image by a whole factor.

use crate::rgb_image::{pixel_offset, rgb_bytes, rgb_size, RgbImage};
use rayon::iter::{IndexedParallelIterator, ParallelIterator};
use rayon::slice::ParallelSliceMut;
use vstd::arithmetic::div_mod::{lemma_div_denominator, lemma_fundamental_div_mod};
use vstd::prelude::*;

verus! {

/// Sample `k` of row `dy` of the shrunk image: sample `k % 3` of the source pixel at column
/// `k / 3 * f` and row `dy * f`.
pub open spec fn kept_sample(src: Seq<u8>, src_w: int, f: int, dy: int, k: int) -> u8 {
    src[pixel_offset(src_w, k / 3 * f, dy * f) + k % 3]
}

proof fn lemma_kept_sample_in_bounds(len: int, src_w: int, f: int, dst_w: int, dy: int, k: int)
    requires
        0 < f,
        0 <= dy,
        0 <= dst_w,
        dst_w * f <= src_w,
        (dy * f + 1) * src_w * 3 <= len,
        0 <= k < dst_w * 3,
    ensures
        0 <= k / 3 < dst_w,
        0 <= k / 3 * f < src_w,
        0 <= dy * f * src_w,
        0 <= dy * f <= dy * f * src_w,
        0 <= dy * f * src_w + k / 3 * f < len,
        0 <= pixel_offset(src_w, k / 3 * f, dy * f),
        pixel_offset(src_w, k / 3 * f, dy * f) + k % 3 < len,
{
    let dx = k / 3;
    assert(0 <= dx < dst_w);
    assert(0 <= dx * f && dx * f + f <= dst_w * f) by (nonlinear_arith)
        requires
            0 <= dx < dst_w,
            0 < f,
    ;
    assert(0 <= dy * f) by (nonlinear_arith)
        requires
            0 <= dy,
            0 < f,
    ;
    assert((dy * f + 1) * src_w == dy * f * src_w + src_w) by (nonlinear_arith);
    assert(dy * f <= dy * f * src_w) by (nonlinear_arith)
        requires
            0 <= dy * f,
            1 <= src_w,
    ;
}

/// Fills one row of the shrunk image.
fn downscale_row(src: &Vec<u8>, src_w: usize, f: usize, dst_w: usize, dy: usize, row: &mut [u8])
    requires
        0 < f,
        dst_w * f <= src_w,
        (dy * f + 1) * src_w * 3 <= src@.len(),
        old(row)@.len() == dst_w * 3,
    ensures
        final(row)@.len() == dst_w * 3,
        forall|k: int|
            0 <= k < dst_w * 3 ==> #[trigger] final(row)@[k] == kept_sample(
                src@,
                src_w as int,
                f as int,
                dy as int,
                k,
            ),
{
    let n: usize = row.len();
    let len: usize = src.len();
    let mut k: usize = 0;
    while k < n
        invariant
            k <= n,
            n == row@.len(),
            n == dst_w * 3,
            len == src@.len(),
            0 < f,
            dst_w * f <= src_w,
            (dy * f + 1) * src_w * 3 <= src@.len(),
            forall|j: int|
                0 <= j < k ==> #[trigger] row@[j] == kept_sample(
                    src@,
                    src_w as int,
                    f as int,
                    dy as int,
                    j,
                ),
        decreases n - k,
    {
        proof {
            lemma_kept_sample_in_bounds(
                src@.len() as int,
                src_w as int,
                f as int,
                dst_w as int,
                dy as int,
                k as int,
            );
        }
        let sy: usize = dy * f;
        let sx: usize = k / 3 * f;
        row[k] = src[(sy * src_w + sx) * 3 + k % 3];
        k += 1;
    }
}

/// Splits `dst` into rows of `row_len` samples with rayon's `par_chunks_exact_mut`, numbers them with
/// `enumerate` and hands each to `downscale_row` with `for_each`. Every whole chunk is visited once with its own
/// number and no two chunks overlap, so each row ends as `downscale_row` leaves it. A chunk of
/// length zero would make the call panic.
#[verifier::external_body]
fn fill_rows(
    src: &Vec<u8>,
    src_w: usize,
    f: usize,
    dst_w: usize,
    row_len: usize,
    dst_h: usize,
    dst: &mut Vec<u8>,
)
    requires
        0 < f,
        0 < dst_w,
        row_len == dst_w * 3,
        dst_w * f <= src_w,
        dst_h * f * src_w * 3 <= src@.len(),
        old(dst)@.len() == dst_h * row_len,
    ensures
        final(dst)@.len() == old(dst)@.len(),
        forall|dy: int, k: int|
            0 <= dy < dst_h && 0 <= k < row_len ==> #[trigger] final(dst)@[dy * row_len + k]
                == kept_sample(src@, src_w as int, f as int, dy, k),
{
    dst.par_chunks_exact_mut(row_len)
        .enumerate()
        .for_each(|(dy, row)| downscale_row(src, src_w, f, dst_w, dy, row));
}

/// Whether `small` is `img` with only every `f`-th pixel of every `f`-th row kept.
pub open spec fn is_downscale(img: RgbImage, f: int, small: RgbImage) -> bool {
    &&& small.spec_width() == img.spec_width() / f
    &&& small.spec_height() == img.spec_height() / f
    &&& rgb_bytes(small).len() == small.spec_width() * small.spec_height() * 3
    &&& forall|x: int, y: int|
        0 <= x < small.spec_width() && 0 <= y < small.spec_height() ==> #[trigger] small.pixel(x, y)
            == img.pixel(x * f, y * f)
}

proof fn lemma_rows_are_downscale(img: RgbImage, f: int, small: RgbImage)
    requires
        f > 0,
        small.spec_width() == img.spec_width() / f,
        small.spec_height() == img.spec_height() / f,
        rgb_bytes(small).len() == small.spec_width() * small.spec_height() * 3,
        forall|dy: int, k: int|
            0 <= dy < small.spec_height() && 0 <= k < small.spec_width() * 3
                ==> #[trigger] rgb_bytes(small)[dy * (small.spec_width() * 3) + k] == kept_sample(
                rgb_bytes(img),
                img.spec_width(),
                f,
                dy,
                k,
            ),
    ensures
        is_downscale(img, f, small),
{
    let w = small.spec_width();
    assert forall|x: int, y: int|
        0 <= x < w && 0 <= y < small.spec_height() implies #[trigger] small.pixel(x, y)
        == img.pixel(x * f, y * f) by {
        assert(pixel_offset(w, x, y) == y * (w * 3) + x * 3) by (nonlinear_arith);
        assert(rgb_bytes(small)[y * (w * 3) + x * 3] == kept_sample(
            rgb_bytes(img),
            img.spec_width(),
            f,
            y,
            x * 3,
        ));
        assert(rgb_bytes(small)[y * (w * 3) + (x * 3 + 1)] == kept_sample(
            rgb_bytes(img),
            img.spec_width(),
            f,
            y,
            x * 3 + 1,
        ));
        assert(rgb_bytes(small)[y * (w * 3) + (x * 3 + 2)] == kept_sample(
            rgb_bytes(img),
            img.spec_width(),
            f,
            y,
            x * 3 + 2,
        ));
        assert((x * 3) / 3 == x && (x * 3 + 1) / 3 == x && (x * 3 + 2) / 3 == x);
    }
}

/// Shrinks an image by `factor` in both directions, keeping the top left pixel of every
/// `factor` by `factor` square.
///
/// The factor is at least two and divides both dimensions, and the image is not empty sideways.
pub fn fast_downscale(image: &RgbImage, factor: u32) -> (r: RgbImage)
    requires
        factor >= 2,
        image.spec_width() % factor as int == 0,
        image.spec_height() % factor as int == 0,
        image.spec_width() > 0,
    ensures
        is_downscale(*image, factor as int, r),
{
    let (w, h) = image.dimensions();
    let src_w: usize = w as usize;
    let src_h: usize = h as usize;
    let f: usize = factor as usize;
    let dst_w: usize = src_w / f;
    let dst_h: usize = src_h / f;
    let src: &Vec<u8> = image.as_raw();
    let len: usize = src.len();
    proof {
        lemma_downscale_sizes(len as int, src_w as int, src_h as int, f as int);
    }
    let mut dst: Vec<u8> = vec![0u8; dst_w * dst_h * 3];
    assert(dst_w * dst_h * 3 == dst_h * (dst_w * 3)) by (nonlinear_arith);
    fill_rows(src, src_w, f, dst_w, dst_w * 3, dst_h, &mut dst);
    assert(3 * (dst_w as u32) * (dst_h as u32) == dst_w * dst_h * 3) by (nonlinear_arith)
        requires
            dst_w as u32 == dst_w,
            dst_h as u32 == dst_h,
    ;
    let small: Option<RgbImage> = RgbImage::from_raw(dst_w as u32, dst_h as u32, dst);
    let r: RgbImage = small.unwrap();
    proof {
        lemma_rows_are_downscale(*image, factor as int, r);
    }
    r
}

proof fn lemma_downscale_sizes(len: int, src_w: int, src_h: int, f: int)
    requires
        f >= 2,
        src_w > 0,
        src_h >= 0,
        src_w % f == 0,
        src_h % f == 0,
        3 * src_w * src_h <= len,
    ensures
        src_w / f > 0,
        src_w / f <= src_w,
        0 <= src_h / f <= src_h,
        src_w / f * f == src_w,
        src_h / f * f == src_h,
        src_h / f * f * src_w * 3 <= len,
        0 <= src_w / f * (src_h / f),
        src_w / f * (src_h / f) * 3 <= len,
{
    let w = src_w / f;
    let h = src_h / f;
    lemma_fundamental_div_mod(src_w, f);
    lemma_fundamental_div_mod(src_h, f);
    assert(w * f == src_w && h * f == src_h) by (nonlinear_arith)
        requires
            src_w == f * w,
            src_h == f * h,
    ;
    assert(w > 0 && h >= 0 && w <= src_w && h <= src_h) by (nonlinear_arith)
        requires
            w * f == src_w,
            h * f == src_h,
            src_w > 0,
            src_h >= 0,
            f >= 2,
    ;
    assert(0 <= w * h && w * h <= src_w * src_h) by (nonlinear_arith)
        requires
            0 < w <= src_w,
            0 <= h <= src_h,
    ;
    assert(src_h * src_w * 3 == 3 * src_w * src_h) by (nonlinear_arith);
    assert(3 * src_w * src_h == 3 * (src_w * src_h)) by (nonlinear_arith);
}

/// Shrinking by one factor and then by another is shrinking by their product.
pub proof fn lemma_downscales_multiply(
    img: RgbImage,
    a: int,
    middle: RgbImage,
    b: int,
    small: RgbImage,
)
    requires
        a > 0,
        b > 0,
        is_downscale(img, a, middle),
        is_downscale(middle, b, small),
    ensures
        is_downscale(img, a * b, small),
{
    lemma_div_denominator(img.spec_width(), a, b);
    lemma_div_denominator(img.spec_height(), a, b);
    assert forall|x: int, y: int|
        0 <= x < small.spec_width() && 0 <= y < small.spec_height() implies #[trigger] small.pixel(
        x,
        y,
    ) == img.pixel(x * (a * b), y * (a * b)) by {
        lemma_grid_inside(middle.spec_width(), b, x);
        lemma_grid_inside(middle.spec_height(), b, y);
        assert(small.pixel(x, y) == middle.pixel(x * b, y * b));
        assert(x * b * a == x * (a * b) && y * b * a == y * (a * b)) by (nonlinear_arith);
    }
}

/// A pixel that is kept was there.
pub(crate) proof fn lemma_grid_inside(n: int, d: int, k: int)
    requires
        d > 0,
        0 <= k < n / d,
    ensures
        0 <= k * d < n,
{
    lemma_fundamental_div_mod(n, d);
    let q = n / d;
    assert(0 <= k * d && k * d + d <= d * q) by (nonlinear_arith)
        requires
            0 <= k,
            k + 1 <= q,
            d > 0,
    ;
    assert(0 <= n % d) by (nonlinear_arith)
        requires
            d > 0,
    ;
}

/// Shrinking by `factor` leaves one sample in `factor * factor`: sample `c` of the pixel at column
/// `x` and row `y` is that of the pixel `factor` times as far from the left and from the top.
pub proof fn lemma_downscale_keeps_samples(
    image: &RgbImage,
    factor: u32,
    r: RgbImage,
    x: int,
    y: int,
    c: int,
)
    requires
        call_ensures(fast_downscale, (image, factor), r),
        factor > 0,
        rgb_size(*image).0 as int % factor as int == 0,
        rgb_size(*image).1 as int % factor as int == 0,
        0 <= x,
        factor * x < rgb_size(*image).0,
        0 <= y,
        factor * y < rgb_size(*image).1,
        0 <= c < 3,
    ensures
        rgb_bytes(r)[3 * (rgb_size(r).0 * y) + 3 * x + c] == rgb_bytes(*image)[3 * (rgb_size(
            *image,
        ).0 * (factor * y)) + 3 * (factor * x) + c],
{
    let w = rgb_size(r).0 as int;
    let src_w = rgb_size(*image).0 as int;
    let f = factor as int;
    lemma_downscale_divides_size(image, factor, r);
    assert(w * f == f * w && rgb_size(r).1 * f == f * rgb_size(r).1) by (nonlinear_arith);
    assert(x < w && y < rgb_size(r).1) by (nonlinear_arith)
        requires
            f * x < f * w,
            f * y < f * rgb_size(r).1,
            f > 0,
    ;
    assert(x * f == f * x && y * f == f * y) by (nonlinear_arith);
    assert(r.pixel(x, y) == image.pixel(x * f, y * f));
    assert((y * w + x) * 3 == 3 * (w * y) + 3 * x) by (nonlinear_arith);
    assert((y * f * src_w + x * f) * 3 == 3 * (src_w * (f * y)) + 3 * (f * x)) by (nonlinear_arith);
}

/// Shrinking divides the size by the factor, whatever the image shows, and leaves three samples for
/// each pixel.
pub proof fn lemma_downscale_divides_size(image: &RgbImage, factor: u32, r: RgbImage)
    requires
        call_ensures(fast_downscale, (image, factor), r),
        factor > 0,
        rgb_size(*image).0 as int % factor as int == 0,
        rgb_size(*image).1 as int % factor as int == 0,
    ensures
        rgb_size(r).0 * factor == rgb_size(*image).0,
        rgb_size(r).1 * factor == rgb_size(*image).1,
        rgb_bytes(r).len() == 3 * (rgb_size(r).0 * rgb_size(r).1),
{
    let f = factor as int;
    lemma_fundamental_div_mod(rgb_size(*image).0 as int, f);
    lemma_fundamental_div_mod(rgb_size(*image).1 as int, f);
    assert(rgb_size(r).0 * f == f * rgb_size(r).0 && rgb_size(r).1 * f == f * rgb_size(r).1)
        by (nonlinear_arith);
}

} // verus!
