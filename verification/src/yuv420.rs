//! YUV 4:2:0 framebuffers with a plane for each channel.

use vstd::arithmetic::div_mod::{lemma_fundamental_div_mod, lemma_fundamental_div_mod_converse};
use vstd::prelude::*;
use vstd::slice::slice_subrange;

verus! {

/// The widest image that is decoded in full.
pub const FULL_WIDTH: u32 = 640;

/// The bytes of plane `i`: as many rows as the image, shortened as often as the plane is narrower
/// than the first.
pub open spec fn plane_len(height: u32, pitches: Seq<u32>, i: int) -> int {
    height * pitches[i] / (pitches[0] as int / pitches[i] as int)
}

/// Where plane `i` ends.
pub open spec fn plane_end(height: u32, pitches: Seq<u32>, offsets: Seq<u32>, i: int) -> int {
    offsets[i] + plane_len(height, pitches, i)
}

/// Whether plane `i` is no wider than the first, and its end can be counted in 32 bits.
pub open spec fn plane_countable(height: u32, pitches: Seq<u32>, offsets: Seq<u32>, i: int) -> bool {
    &&& 0 < pitches[i] <= pitches[0]
    &&& height * pitches[i] <= u32::MAX
    &&& plane_end(height, pitches, offsets, i) <= u32::MAX
}

/// Whether the three planes are countable and none ends after the last.
pub open spec fn planes_in_order(height: u32, pitches: Seq<u32>, offsets: Seq<u32>) -> bool {
    &&& plane_countable(height, pitches, offsets, 0)
    &&& plane_countable(height, pitches, offsets, 1)
    &&& plane_countable(height, pitches, offsets, 2)
    &&& plane_end(height, pitches, offsets, 0) <= plane_end(height, pitches, offsets, 2)
    &&& plane_end(height, pitches, offsets, 1) <= plane_end(height, pitches, offsets, 2)
}

/// The planes of a framebuffer, with what they are to be decoded with.
pub struct PlanarFrame<'a> {
    pub planes: [&'a [u8]; 3],
    pub size: (u32, u32),
    pub pitches: [u32; 3],
    /// Whether to decode a smaller image.
    pub small: bool,
}

/// Where plane `i` ends.
fn end_of(height: u32, pitches: &[u32; 4], offsets: &[u32; 4], i: usize) -> (r: u32)
    requires
        i < 3,
        plane_countable(height, pitches@, offsets@, i as int),
    ensures
        r == plane_end(height, pitches@, offsets@, i as int),
{
    proof {
        lemma_plane_starts(height, pitches@, offsets@, i as int);
    }
    offsets[i] + height * pitches[i] / (pitches[0] / pitches[i])
}

/// The bytes to read: up to the end of the last plane.
pub fn yuv420_length(height: u32, pitches: &[u32; 4], offsets: &[u32; 4]) -> (r: u32)
    requires
        plane_countable(height, pitches@, offsets@, 2),
    ensures
        r == plane_end(height, pitches@, offsets@, 2),
{
    end_of(height, pitches, offsets, 2)
}

/// Whether the three planes are countable and none ends after the last.
pub fn has_planes_in_order(height: u32, pitches: &[u32; 4], offsets: &[u32; 4]) -> (r: bool)
    ensures
        r == planes_in_order(height, pitches@, offsets@),
{
    is_countable(height, pitches, offsets, 0) && is_countable(height, pitches, offsets, 1)
        && is_countable(height, pitches, offsets, 2) && end_of(height, pitches, offsets, 0)
        <= end_of(height, pitches, offsets, 2) && end_of(height, pitches, offsets, 1) <= end_of(
        height,
        pitches,
        offsets,
        2,
    )
}

fn is_countable(height: u32, pitches: &[u32; 4], offsets: &[u32; 4], i: usize) -> (r: bool)
    requires
        i < 3,
    ensures
        r == plane_countable(height, pitches@, offsets@, i as int),
{
    if pitches[i] == 0 || pitches[0] < pitches[i] {
        return false;
    }
    assert(0 <= height * pitches[i as int] <= 0xFFFF_FFFF * 0xFFFF_FFFF) by (nonlinear_arith)
        requires
            0 <= height <= 0xFFFF_FFFF,
            0 <= pitches[i as int] <= 0xFFFF_FFFF,
    ;
    let bytes: u64 = height as u64 * pitches[i] as u64;
    if bytes > 0xFFFF_FFFF {
        return false;
    }
    let narrower: u64 = (pitches[0] / pitches[i]) as u64;
    proof {
        assert(narrower >= 1 && 0 <= bytes as int / narrower as int <= bytes) by (nonlinear_arith)
            requires
                narrower == pitches[0] as int / pitches[i as int] as int,
                0 < pitches[i as int] <= pitches[0],
                0 <= bytes,
        ;
    }
    offsets[i] as u64 + bytes / narrower <= 0xFFFF_FFFF
}

/// Cuts a framebuffer into its planes, and chooses a smaller image where it is wider than 640
/// pixels.
pub fn dump_yuv420_to_image<'a>(
    buffer: &'a [u8],
    size: (u32, u32),
    pitches: [u32; 4],
    offsets: [u32; 4],
) -> (r: PlanarFrame<'a>)
    requires
        planes_in_order(size.1, pitches@, offsets@),
        buffer@.len() == plane_end(size.1, pitches@, offsets@, 2),
    ensures
        forall|i: int|
            0 <= i < 3 ==> (#[trigger] r.planes[i])@ == buffer@.subrange(
                offsets[i] as int,
                plane_end(size.1, pitches@, offsets@, i),
            ),
        r.size == size,
        r.pitches@ == pitches@.subrange(0, 3),
        r.small == (size.0 > FULL_WIDTH),
{
    let e0: u32 = end_of(size.1, &pitches, &offsets, 0);
    let e1: u32 = end_of(size.1, &pitches, &offsets, 1);
    let e2: u32 = end_of(size.1, &pitches, &offsets, 2);
    proof {
        lemma_plane_starts(size.1, pitches@, offsets@, 0);
        lemma_plane_starts(size.1, pitches@, offsets@, 1);
        lemma_plane_starts(size.1, pitches@, offsets@, 2);
    }
    let y: &'a [u8] = slice_subrange(buffer, offsets[0] as usize, e0 as usize);
    let u: &'a [u8] = slice_subrange(buffer, offsets[1] as usize, e1 as usize);
    let v: &'a [u8] = slice_subrange(buffer, offsets[2] as usize, e2 as usize);
    let r: PlanarFrame<'a> = PlanarFrame {
        planes: [y, u, v],
        size,
        pitches: [pitches[0], pitches[1], pitches[2]],
        small: size.0 > FULL_WIDTH,
    };
    assert(r.pitches@ =~= pitches@.subrange(0, 3));
    r
}

/// A plane ends no earlier than it begins.
pub(crate) proof fn lemma_plane_starts(height: u32, pitches: Seq<u32>, offsets: Seq<u32>, i: int)
    requires
        0 < pitches[i] <= pitches[0],
    ensures
        pitches[0] as int / pitches[i] as int >= 1,
        offsets[i] <= plane_end(height, pitches, offsets, i),
{
    let w = pitches[0] as int / pitches[i] as int;
    assert(w >= 1 && 0 <= height * pitches[i] / w) by (nonlinear_arith)
        requires
            w == pitches[0] as int / pitches[i] as int,
            0 < pitches[i] <= pitches[0],
            0 <= height,
    ;
}

/// A plane with half the pitch of the first has a quarter of its bytes, where the rows of the image
/// come in pairs: its samples stand for squares of two by two pixels.
pub proof fn lemma_halved_plane_is_a_quarter(height: u32, pitches: Seq<u32>, i: int)
    requires
        pitches[i] > 0,
        pitches[0] == 2 * pitches[i],
        height % 2 == 0,
    ensures
        4 * plane_len(height, pitches, i) == plane_len(height, pitches, 0),
{
    let p = pitches[i] as int;
    assert(pitches[0] as int / p == 2 && pitches[0] as int / pitches[0] as int == 1)
        by (nonlinear_arith)
        requires
            pitches[0] == 2 * p,
            p > 0,
    ;
    let k = height as int / 2;
    assert(height * p == 2 * (k * p)) by (nonlinear_arith)
        requires
            height == 2 * k,
    ;
    assert(height * pitches[0] == 4 * (k * p)) by (nonlinear_arith)
        requires
            height == 2 * k,
            pitches[0] == 2 * p,
    ;
}

/// Where a plane ends that begins at `offset`, with `pitch` bytes to a row where the first plane has
/// `first`.
pub open spec fn plane_stop(height: u32, first: u32, pitch: u32, offset: u32) -> int {
    let narrower = first as int / pitch as int;
    offset + height * pitch / narrower
}

/// The bytes to read end with the last plane. Where it is `narrower` times narrower than the first, it
/// has so many times fewer rows than the image, to within a byte.
pub proof fn lemma_last_plane_ends_buffer(
    height: u32,
    pitches: &[u32; 4],
    offsets: &[u32; 4],
    r: u32,
    narrower: int,
)
    requires
        call_ensures(yuv420_length, (height, pitches, offsets), r),
        pitches@[2] > 0,
        narrower > 0,
        narrower * pitches@[2] <= pitches@[0] < narrower * pitches@[2] + pitches@[2],
    ensures
        r >= offsets@[2],
        narrower * (r - offsets@[2]) <= height * pitches@[2] < narrower * (r - offsets@[2])
            + narrower,
{
    let p = pitches@[2] as int;
    lemma_fundamental_div_mod_converse(
        pitches@[0] as int,
        p,
        narrower,
        pitches@[0] - narrower * p,
    );
    let bytes = height * p;
    lemma_fundamental_div_mod(bytes, narrower);
    assert(0 <= bytes % narrower < narrower && 0 <= bytes / narrower) by (nonlinear_arith)
        requires
            narrower > 0,
            bytes == height * p,
            0 <= height,
            0 < p,
    ;
}

/// Planes are accepted exactly where none is empty or wider than the first, their bytes and their
/// ends can be counted in 32 bits, and none ends after the last.
pub proof fn lemma_plane_order_is_exact(
    height: u32,
    pitches: &[u32; 4],
    offsets: &[u32; 4],
    r: bool,
)
    requires
        call_ensures(has_planes_in_order, (height, pitches, offsets), r),
    ensures
        r == planes_stop_in_order(height, pitches@, offsets@),
{
    lemma_planes_stop(height, pitches@, offsets@);
}

/// Whether none of the planes is empty or wider than the first, their bytes and their ends can be
/// counted in 32 bits, and none ends after the last.
pub open spec fn planes_stop_in_order(height: u32, pitches: Seq<u32>, offsets: Seq<u32>) -> bool {
    forall|i: int|
        #![trigger pitches[i]]
        0 <= i <= 2 ==> {
            &&& 0 < pitches[i] <= pitches[0]
            &&& height * pitches[i] < 0x1_0000_0000
            &&& plane_stop(height, pitches[0], pitches[i], offsets[i]) < 0x1_0000_0000
            &&& plane_stop(height, pitches[0], pitches[i], offsets[i]) <= plane_stop(
                height,
                pitches[0],
                pitches[2],
                offsets[2],
            )
        }
}

pub(crate) proof fn lemma_planes_stop(height: u32, pitches: Seq<u32>, offsets: Seq<u32>)
    ensures
        planes_in_order(height, pitches, offsets) == planes_stop_in_order(
            height,
            pitches,
            offsets,
        ),
        forall|i: int| #[trigger]
            plane_end(height, pitches, offsets, i) == plane_stop(
                height,
                pitches[0],
                pitches[i],
                offsets[i],
            ),
{
    if planes_stop_in_order(height, pitches, offsets) {
        assert(0 < pitches[0]);
        assert(0 < pitches[1]);
        assert(0 < pitches[2]);
    }
}

/// The planes are cut out of the buffer where their offsets say: byte `k` of plane `i` is byte
/// `offsets[i] + k` of the buffer.
pub proof fn lemma_planes_are_cut_at_offsets(
    buffer: &[u8],
    size: (u32, u32),
    pitches: [u32; 4],
    offsets: [u32; 4],
    r: PlanarFrame,
    i: int,
)
    requires
        call_ensures(dump_yuv420_to_image, (buffer, size, pitches, offsets), r),
        planes_stop_in_order(size.1, pitches@, offsets@),
        buffer@.len() == plane_stop(size.1, pitches@[0], pitches@[2], offsets@[2]),
        0 <= i < 3,
    ensures
        r.planes@[i]@.len() == plane_stop(size.1, pitches@[0], pitches@[i], offsets@[i])
            - offsets@[i],
        forall|k: int|
            0 <= k < r.planes@[i]@.len() ==> #[trigger] r.planes@[i]@[k] == buffer@[offsets@[i]
                + k],
{
    lemma_planes_stop(size.1, pitches@, offsets@);
    lemma_plane_starts(size.1, pitches@, offsets@, i);
    assert(r.planes[i]@ == buffer@.subrange(
        offsets[i] as int,
        plane_end(size.1, pitches@, offsets@, i),
    ));
}

/// The size, and the first three pitches, are handed on as they are, and an image is decoded small
/// exactly where it is more than 640 pixels wide.
pub proof fn lemma_planar_frame_is_described(
    buffer: &[u8],
    size: (u32, u32),
    pitches: [u32; 4],
    offsets: [u32; 4],
    r: PlanarFrame,
)
    requires
        call_ensures(dump_yuv420_to_image, (buffer, size, pitches, offsets), r),
    ensures
        r.size == size,
        r.pitches@[0] == pitches@[0],
        r.pitches@[1] == pitches@[1],
        r.pitches@[2] == pitches@[2],
        r.small == (size.0 > 640),
{
    assert(pitches@.subrange(0, 3)[0] == pitches@[0]);
    assert(pitches@.subrange(0, 3)[1] == pitches@[1]);
    assert(pitches@.subrange(0, 3)[2] == pitches@[2]);
}

} // verus!
