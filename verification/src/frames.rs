//! Animated images: an ordered sequence of frames, each an image with the
//! time for which it is shown.

use vstd::prelude::*;
use crate::engine::{amogified, amogify};
use crate::raster::{PixelBuffer, Raster};

verus! {

/// The time for which a frame is shown, in milliseconds, as a ratio.
#[derive(Clone, Copy, Debug, PartialEq, Eq, Structural)]
pub struct Delay {
    pub numer: u32,
    pub denom: u32,
}

impl Delay {
    /// A delay from its numerator and denominator, in this order.
    pub fn from_pair(ratio: (u32, u32)) -> (delay: Delay)
        ensures
            delay == (Delay { numer: ratio.0, denom: ratio.1 }),
    {
        Delay { numer: ratio.0, denom: ratio.1 }
    }
}

/// One frame of an animation.
pub struct Frame {
    pub buffer: PixelBuffer,
    pub delay: Delay,
}

/// The mathematical value of a frame.
pub struct FrameView {
    pub raster: Raster,
    pub delay: Delay,
}

impl View for Frame {
    type V = FrameView;

    open spec fn view(&self) -> FrameView {
        FrameView { raster: self.buffer@, delay: self.delay }
    }
}

impl Frame {
    /// The image is well formed and the delay is a ratio: its denominator
    /// is not zero.
    pub open spec fn wf(&self) -> bool {
        self.buffer.wf() && self.delay.denom > 0
    }
}

/// Every frame of the sequence is well formed.
pub open spec fn all_frames_wf(frames: Seq<Frame>) -> bool {
    forall|i: int| 0 <= i < frames.len() ==> (#[trigger] frames[i]).wf()
}

/// The values of a sequence of frames, in its order.
pub open spec fn frame_views(frames: Seq<Frame>) -> Seq<FrameView> {
    Seq::new(frames.len(), |i: int| frames[i]@)
}

/// The animation in which every frame is transformed by itself and keeps
/// its place and its delay.
pub open spec fn amogified_frames(frames: Seq<FrameView>) -> Seq<FrameView> {
    Seq::new(
        frames.len(),
        |i: int| FrameView { raster: amogified(frames[i].raster), delay: frames[i].delay },
    )
}

/// Transforms every frame of an animation by itself. The result has as many
/// frames, in the same order, each with the delay it had.
pub fn amogify_frames(frames: &Vec<Frame>) -> (out: Vec<Frame>)
    requires
        all_frames_wf(frames@),
    ensures
        all_frames_wf(out@),
        out@.len() == frames@.len(),
        frame_views(out@) == amogified_frames(frame_views(frames@)),
{
    let mut out: Vec<Frame> = Vec::new();
    let mut i: usize = 0;
    while i < frames.len()
        invariant
            i <= frames@.len(),
            all_frames_wf(frames@),
            all_frames_wf(out@),
            out@.len() == i,
            forall|k: int|
                0 <= k < i ==> (#[trigger] out@[k])@ == (FrameView {
                    raster: amogified(frames@[k].buffer@),
                    delay: frames@[k].delay,
                }),
        decreases frames@.len() - i,
    {
        let frame = &frames[i];
        assert(frame.wf());
        let buffer = amogify(&frame.buffer);
        out.push(Frame { buffer, delay: frame.delay });
        i += 1;
    }
    assert(frame_views(out@) =~= amogified_frames(frame_views(frames@)));
    out
}

} // verus!
