use vstd::prelude::*;

verus! {

/// The progress of an animation being played.
#[derive(Debug, Clone, Copy, PartialEq, Eq, Hash, Structural)]
pub struct AnimationProgress {
    /// The index of the current frame of the animation.
    ///
    /// This is an absolute index within one repetition of the whole animation, unrelated
    /// to the clips that compose it. It wraps around for each repetition: a 3-frame
    /// animation repeated twice gives 0 → 1 → 2 → 0 → 1 → 2.
    pub frame: usize,
    /// The current repetition of the animation: 0 → 0 → 0 → 1 → 1 → 1 in the example above.
    pub repetition: usize,
}

impl Default for AnimationProgress {
    fn default() -> (p: Self)
        ensures
            p.frame == 0,
            p.repetition == 0,
    {
        AnimationProgress { frame: 0, repetition: 0 }
    }
}

impl AnimationProgress {
    /// The progress at a frame of the first repetition.
    pub fn with_frame(frame: usize) -> (p: Self)
        ensures
            p.frame == frame,
            p.repetition == 0,
    {
        AnimationProgress { frame, repetition: 0 }
    }

    /// The progress at a frame of a repetition.
    pub fn with_frame_repetition(frame: usize, repetition: usize) -> (p: Self)
        ensures
            p.frame == frame,
            p.repetition == repetition,
    {
        AnimationProgress { frame, repetition }
    }
}

} // verus!
