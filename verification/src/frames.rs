//! Which frames are dumped anew, and when the next one is due.

use vstd::prelude::*;

verus! {

/// What is remembered of the frames before: the 32 pixels that were sampled of the last one, the
/// last image that was dumped, and how many frames have gone by unchanged since.
pub struct FrameGate<I> {
    samples: [u32; 32],
    image: Option<I>,
    skipped: u32,
}

/// The last samples and the number of unchanged frames, after one more frame.
pub open spec fn gate_step(before: (Seq<u32>, int), samples: Seq<u32>) -> (Seq<u32>, int) {
    if samples == before.0 {
        (samples, before.1 + 1)
    } else {
        (samples, 0)
    }
}

/// The last samples and the number of unchanged frames, after a run of frames.
pub open spec fn gate_steps(before: (Seq<u32>, int), frames: Seq<Seq<u32>>) -> (Seq<u32>, int)
    decreases frames.len(),
{
    if frames.len() == 0 {
        before
    } else {
        gate_step(gate_steps(before, frames.drop_last()), frames.last())
    }
}

/// The number of unchanged frames is that of the frames at the end of a run that are like the one
/// before them, since the last that was not.
pub proof fn lemma_skipped_counts_unchanged(
    before: (Seq<u32>, int),
    frames: Seq<Seq<u32>>,
    changed: int,
)
    requires
        0 <= changed < frames.len(),
        frames[changed] != gate_steps(before, frames.take(changed)).0,
        forall|i: int| changed < i < frames.len() ==> #[trigger] frames[i] == frames[changed],
    ensures
        gate_steps(before, frames) == (frames[changed], frames.len() - changed - 1),
    decreases frames.len(),
{
    if changed == frames.len() - 1 {
        assert(frames.drop_last() =~= frames.take(changed));
    } else {
        let shorter = frames.drop_last();
        assert(shorter.take(changed) =~= frames.take(changed));
        lemma_skipped_counts_unchanged(before, shorter, changed);
    }
}

impl<I> FrameGate<I> {
    /// The samples of the last frame.
    pub closed spec fn spec_samples(self) -> Seq<u32> {
        self.samples@
    }

    /// The last image that was dumped.
    pub closed spec fn spec_image(self) -> Option<I> {
        self.image
    }

    /// How many frames have gone by unchanged.
    pub closed spec fn spec_skipped(self) -> u32 {
        self.skipped
    }

    /// Nothing but black samples to remember.
    pub fn new() -> (r: FrameGate<I>)
        ensures
            r.spec_samples() == Seq::new(32, |i: int| 0u32),
            r.spec_image() is None,
            r.spec_skipped() == 0,
    {
        let r: FrameGate<I> = FrameGate { samples: [0u32; 32], image: None, skipped: 0 };
        assert(r.samples@ =~= Seq::new(32, |i: int| 0u32));
        r
    }

    /// How many frames have gone by unchanged.
    pub fn skipped(&self) -> (r: u32)
        ensures
            r == self.spec_skipped(),
    {
        self.skipped
    }

    /// The last image that was dumped.
    pub fn image(&self) -> (r: Option<&I>)
        ensures
            match r {
                Some(image) => self.spec_image() == Some(*image),
                None => self.spec_image() is None,
            },
    {
        self.image.as_ref()
    }

    /// Whether a frame with these samples is like the frame before.
    pub fn is_unchanged(&self, samples: &[u32; 32]) -> (r: bool)
        ensures
            r == (samples@ == self.spec_samples()),
    {
        let mut i: usize = 0;
        while i < 32
            invariant
                i <= 32,
                forall|j: int| 0 <= j < i ==> samples[j] == self.samples[j],
            decreases 32 - i,
        {
            if samples[i] != self.samples[i] {
                return false;
            }
            i += 1;
        }
        assert(samples@ =~= self.samples@);
        true
    }

    /// Takes in the samples of a frame, and says whether it is to be dumped anew. One like the
    /// frame before is not, and is counted.
    pub fn on_samples(&mut self, samples: [u32; 32]) -> (changed: bool)
        requires
            old(self).spec_samples() == samples@ ==> old(self).spec_skipped() < u32::MAX,
        ensures
            changed == (samples@ != old(self).spec_samples()),
            (final(self).spec_samples(), final(self).spec_skipped() as int) == gate_step(
                (old(self).spec_samples(), old(self).spec_skipped() as int),
                samples@,
            ),
            final(self).spec_image() == old(self).spec_image(),
    {
        if self.is_unchanged(&samples) {
            self.skipped += 1;
            return false;
        }
        self.samples = samples;
        self.skipped = 0;
        true
    }

    /// Remembers the image that a frame was dumped to.
    pub fn on_image(&mut self, image: I)
        ensures
            final(self).spec_image() == Some(image),
            final(self).spec_samples() == old(self).spec_samples(),
            final(self).spec_skipped() == old(self).spec_skipped(),
    {
        self.image = Some(image);
    }
}

/// How long to wait for the next frame, when one is due every `frame` nanoseconds and `elapsed`
/// have gone by: not at all once it is due.
pub fn frame_pause(frame: u128, elapsed: u128) -> (r: Option<u128>)
    ensures
        r == (if elapsed < frame {
            Some((frame - elapsed) as u128)
        } else {
            None
        }),
{
    if elapsed < frame {
        Some(frame - elapsed)
    } else {
        None
    }
}

/// A frame is dumped anew exactly where its samples differ from those of the frame before it, and is
/// counted where they do not. The image that is remembered stays.
pub proof fn lemma_frames_are_compared<I>(
    a: &mut FrameGate<I>,
    first: [u32; 32],
    first_changed: bool,
    b: &mut FrameGate<I>,
    second: [u32; 32],
    second_changed: bool,
    before: u32,
    after: u32,
)
    requires
        call_ensures(FrameGate::<I>::on_samples, (a, first), first_changed),
        *old(b) == *final(a),
        call_ensures(FrameGate::<I>::skipped, (old(b),), before),
        call_ensures(FrameGate::<I>::on_samples, (b, second), second_changed),
        call_ensures(FrameGate::<I>::skipped, (final(b),), after),
    ensures
        second_changed == exists|i: int| 0 <= i < 32 && first@[i] != #[trigger] second@[i],
        after == (if second_changed {
            0
        } else {
            before + 1
        }),
        final(b).spec_image() == old(a).spec_image(),
{
    if first@ != second@ {
        assert(exists|i: int| 0 <= i < 32 && first@[i] != #[trigger] second@[i]) by {
            if forall|i: int| 0 <= i < 32 ==> first@[i] == #[trigger] second@[i] {
                assert(first@ =~= second@);
            }
        }
    }
}

/// The first frame is dumped unless every sample of it is zero, and there is no image before it.
pub proof fn lemma_first_frame_is_compared_with_black<I>(
    g: &mut FrameGate<I>,
    samples: [u32; 32],
    changed: bool,
    image: Option<&I>,
)
    requires
        call_ensures(FrameGate::<I>::new, (), *old(g)),
        call_ensures(FrameGate::<I>::image, (old(g),), image),
        call_ensures(FrameGate::<I>::on_samples, (g, samples), changed),
    ensures
        changed == exists|i: int| 0 <= i < 32 && #[trigger] samples@[i] != 0,
        image is None,
{
    let black = Seq::new(32, |i: int| 0u32);
    if samples@ != black {
        assert(exists|i: int| 0 <= i < 32 && #[trigger] samples@[i] != 0) by {
            if forall|i: int| 0 <= i < 32 ==> #[trigger] samples@[i] == 0 {
                assert(samples@ =~= black);
            }
        }
    } else {
        assert forall|i: int| 0 <= i < 32 implies #[trigger] samples@[i] == 0 by {
            assert(black[i] == 0);
        }
    }
}

/// An image that is remembered is the one that is sent again, and does not count as a frame.
pub proof fn lemma_image_is_remembered<I>(
    g: &mut FrameGate<I>,
    image: I,
    again: Option<&I>,
    before: u32,
    after: u32,
    samples: [u32; 32],
    same: bool,
)
    requires
        call_ensures(FrameGate::<I>::skipped, (old(g),), before),
        call_ensures(FrameGate::<I>::on_image, (g, image), ()),
        call_ensures(FrameGate::<I>::image, (final(g),), again),
        call_ensures(FrameGate::<I>::skipped, (final(g),), after),
        call_ensures(FrameGate::<I>::is_unchanged, (final(g), &samples), same),
    ensures
        again == Some(&image),
        after == before,
        same == (samples@ == old(g).spec_samples()),
{
}

/// Asking first whether a frame is unchanged tells what taking it in will say.
pub proof fn lemma_unchanged_is_foretold<I>(
    g: &mut FrameGate<I>,
    samples: [u32; 32],
    same: bool,
    changed: bool,
)
    requires
        call_ensures(FrameGate::<I>::is_unchanged, (old(g), &samples), same),
        call_ensures(FrameGate::<I>::on_samples, (g, samples), changed),
    ensures
        same != changed,
{
}

/// The time that has gone by and the pause make up a frame, and there is no pause exactly where the
/// frame is over.
pub proof fn lemma_pause_fills_frame(frame: u128, elapsed: u128, r: Option<u128>)
    requires
        call_ensures(frame_pause, (frame, elapsed), r),
    ensures
        match r {
            Some(pause) => elapsed + pause == frame && pause > 0,
            None => elapsed >= frame,
        },
{
}

} // verus!
