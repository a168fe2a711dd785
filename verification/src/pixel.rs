//! Packed pixel words: ten bits per channel in, eight bits per channel out.

use vstd::prelude::*;

verus! {

/// The ten-bit red channel of an XRGB2101010 word (bits 20 to 29).
pub open spec fn red10(word: u32) -> int {
    (word as int / 0x10_0000) % 1024
}

/// The ten-bit green channel of an XRGB2101010 word (bits 10 to 19).
pub open spec fn green10(word: u32) -> int {
    (word as int / 1024) % 1024
}

/// The ten-bit blue channel of an XRGB2101010 word (bits 0 to 9).
pub open spec fn blue10(word: u32) -> int {
    word as int % 1024
}

/// A ten-bit level rounded to the nearest eight-bit one.
pub open spec fn scale10(level: int) -> int {
    (level * 255 + 511) / 1023
}

/// The eight-bit red, green and blue of an XRGB2101010 word.
pub open spec fn rgb8(word: u32) -> (int, int, int) {
    (scale10(red10(word)), scale10(green10(word)), scale10(blue10(word)))
}

/// The XRGB8888 word `0x00RRGGBB` for an XRGB2101010 word.
pub open spec fn xr24_of_xr30(word: u32) -> int {
    rgb8(word).0 * 0x1_0000 + rgb8(word).1 * 0x100 + rgb8(word).2
}

fn scale(x: u32) -> (r: u32)
    requires
        x < 1024,
    ensures
        r == scale10(x as int),
        r <= 255,
{
    let s: u32 = (x * 255 + 511) / 1023;
    assert(s & 0xFF == s) by (bit_vector)
        requires
            s <= 255,
    ;
    s & 0xFF
}

/// Splits an XRGB2101010 word into its channels, each scaled from ten bits to eight.
pub fn ten_to_eight(v10: u32) -> (r: (u32, u32, u32))
    ensures
        (r.0 as int, r.1 as int, r.2 as int) == rgb8(v10),
        r.0 <= 255,
        r.1 <= 255,
        r.2 <= 255,
{
    assert((v10 >> 20) & 0x3FF == (v10 / 0x10_0000) % 1024) by (bit_vector);
    assert((v10 >> 10) & 0x3FF == (v10 / 1024) % 1024) by (bit_vector);
    assert((v10 >> 0) & 0x3FF == v10 % 1024) by (bit_vector);
    let r10: u32 = (v10 >> 20) & 0x3FF;
    let g10: u32 = (v10 >> 10) & 0x3FF;
    let b10: u32 = (v10 >> 0) & 0x3FF;
    (scale(r10), scale(g10), scale(b10))
}

/// Converts every pixel of a buffer from XRGB2101010 to XRGB8888.
pub fn xr30_to_xr24_inplace(pixels: &mut [u32])
    ensures
        final(pixels)@.len() == old(pixels)@.len(),
        forall|i: int|
            0 <= i < old(pixels)@.len() ==> #[trigger] final(pixels)@[i] == xr24_of_xr30(
                old(pixels)@[i],
            ),
{
    let ghost before = pixels@;
    let n: usize = pixels.len();
    let mut i: usize = 0;
    while i < n
        invariant
            i <= n,
            n == pixels@.len(),
            n == before.len(),
            forall|j: int| 0 <= j < i ==> #[trigger] pixels@[j] == xr24_of_xr30(before[j]),
            forall|j: int| i <= j < n ==> #[trigger] pixels@[j] == before[j],
        decreases n - i,
    {
        let (r8, g8, b8) = ten_to_eight(pixels[i]);
        assert((r8 << 16) | (g8 << 8) | (b8 << 0) == r8 * 0x1_0000 + g8 * 0x100 + b8)
            by (bit_vector)
            requires
                r8 <= 255,
                g8 <= 255,
                b8 <= 255,
        ;
        pixels[i] = (r8 << 16) | (g8 << 8) | (b8 << 0);
        i += 1;
    }
}

/// Converts every pixel of a buffer from ARGB2101010 to XRGB8888, dropping the alpha.
pub fn ar30_to_ar24_inplace(pixels: &mut [u32])
    ensures
        final(pixels)@.len() == old(pixels)@.len(),
        forall|i: int|
            0 <= i < old(pixels)@.len() ==> #[trigger] final(pixels)@[i] == xr24_of_xr30(
                old(pixels)@[i],
            ),
{
    xr30_to_xr24_inplace(pixels);
}

/// Scaling rounds to the nearest eight-bit level.
pub proof fn lemma_scale10_is_nearest(level: int)
    requires
        0 <= level < 1024,
    ensures
        0 <= scale10(level) <= 255,
        -511 <= 1023 * scale10(level) - 255 * level <= 511,
{
}

/// A brighter level never becomes a darker one.
pub proof fn lemma_scale10_is_monotone(low: int, high: int)
    requires
        low <= high,
    ensures
        scale10(low) <= scale10(high),
{
}

/// The two bits above the channels make no difference, whether they are unused or hold an alpha.
pub proof fn lemma_top_bits_are_ignored(a: u32, b: u32)
    requires
        a % 0x4000_0000 == b % 0x4000_0000,
    ensures
        rgb8(a) == rgb8(b),
        xr24_of_xr30(a) == xr24_of_xr30(b),
{
    assert((a / 0x10_0000) % 1024 == (b / 0x10_0000) % 1024 && (a / 1024) % 1024 == (b / 1024)
        % 1024 && a % 1024 == b % 1024) by (bit_vector)
        requires
            a % 0x4000_0000 == b % 0x4000_0000,
    ;
}

/// The bytes of a converted word are blue, green, red and zero, from the lowest up.
pub proof fn lemma_xr24_bytes(word: u32)
    ensures
        xr24_of_xr30(word) % 256 == rgb8(word).2,
        xr24_of_xr30(word) / 256 % 256 == rgb8(word).1,
        xr24_of_xr30(word) / 0x1_0000 % 256 == rgb8(word).0,
        xr24_of_xr30(word) / 0x100_0000 == 0,
{
    lemma_scale10_is_nearest(red10(word));
    lemma_scale10_is_nearest(green10(word));
    lemma_scale10_is_nearest(blue10(word));
}

/// Whether an eight-bit level is the nearest to a ten-bit one, full brightness being 255 of the one
/// and 1023 of the other.
pub open spec fn is_nearest(eight: int, ten: int) -> bool {
    2 * (1023 * eight - 255 * ten) <= 1023 && 2 * (255 * ten - 1023 * eight) <= 1023
}

/// Whether red, green and blue are the nearest levels to those of a word with ten bits for each, red
/// above green above blue.
pub open spec fn are_nearest(red: int, green: int, blue: int, word: u32) -> bool {
    &&& is_nearest(red, word as int / 0x10_0000 % 1024)
    &&& is_nearest(green, word as int / 0x400 % 1024)
    &&& is_nearest(blue, word as int % 1024)
}

/// Every ten-bit level has one nearest eight-bit level, and equal steps of brightness from either
/// end of the one scale lie as far from that end of the other.
pub proof fn lemma_nearest_is_unique(a: int, b: int, ten: int)
    requires
        is_nearest(a, ten),
    ensures
        is_nearest(b, ten) ==> a == b,
        is_nearest(255 - a, 1023 - ten),
        0 <= ten < 1024 ==> 0 <= a <= 255,
{
}

/// `ten_to_eight` gives the nearest level of each channel, red first.
pub proof fn lemma_ten_to_eight_is_nearest(v10: u32, r: (u32, u32, u32))
    requires
        call_ensures(ten_to_eight, (v10,), r),
    ensures
        are_nearest(r.0 as int, r.1 as int, r.2 as int, v10),
{
}

/// Conversion in place leaves, for every pixel where it was, the bytes blue, green, red and zero of
/// the nearest levels.
pub proof fn lemma_words_become_nearest(pixels: &mut [u32])
    requires
        call_ensures(xr30_to_xr24_inplace, (pixels,), ()) || call_ensures(
            ar30_to_ar24_inplace,
            (pixels,),
            (),
        ),
    ensures
        final(pixels)@.len() == old(pixels)@.len(),
        forall|i: int|
            #![trigger final(pixels)@[i]]
            0 <= i < old(pixels)@.len() ==> {
                let word = final(pixels)@[i] as int;
                &&& are_nearest(
                    word / 0x1_0000 % 256,
                    word / 0x100 % 256,
                    word % 256,
                    old(pixels)@[i],
                )
                &&& word / 0x100_0000 == 0
            },
{
    assert forall|i: int|
        #![trigger final(pixels)@[i]]
        0 <= i < old(pixels)@.len() implies {
        let word = final(pixels)@[i] as int;
        &&& are_nearest(word / 0x1_0000 % 256, word / 0x100 % 256, word % 256, old(pixels)@[i])
        &&& word / 0x100_0000 == 0
    } by {
        lemma_xr24_is_nearest(old(pixels)@[i]);
    }
}

/// The XRGB8888 word for an XRGB2101010 word holds the nearest levels and nothing above them.
pub proof fn lemma_xr24_is_nearest(word: u32)
    ensures
        0 <= xr24_of_xr30(word) < 0x100_0000,
        are_nearest(
            xr24_of_xr30(word) / 0x1_0000 % 256,
            xr24_of_xr30(word) / 0x100 % 256,
            xr24_of_xr30(word) % 256,
            word,
        ),
{
    lemma_xr24_bytes(word);
    lemma_scale10_is_nearest(red10(word));
    lemma_scale10_is_nearest(green10(word));
    lemma_scale10_is_nearest(blue10(word));
}

} // verus!
