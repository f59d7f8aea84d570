use vstd::prelude::*;

use crate::clip::ClipId;

verus! {

/// A marker that designates a point of interest in an animation.
///
/// Marker-hit events carrying this marker are emitted when the frame it is
/// attached to is played.
#[derive(Debug, Clone, Copy, PartialEq, Eq, Hash, Structural)]
pub struct Marker {
    pub value: usize,
}

impl Marker {
    /// A marker with the given identifying value.
    ///
    /// Fresh, process-wide unique values are handed out by the engine layer;
    /// this constructor takes the value it was given.
    pub fn from_value(value: usize) -> (m: Marker)
        ensures
            m.value == value,
    {
        Marker { value }
    }
}

/// An event emitted while an animation plays. The engine layer reports each one with the
/// entity and the animation it concerns.
#[derive(Debug, Clone, Copy, PartialEq, Eq, Hash, Structural)]
pub enum PlaybackEvent {
    /// A frame that holds a marker was played.
    MarkerHit { marker: Marker, clip_id: ClipId, clip_repetition: usize, animation_repetition: usize },
    /// A repetition of a clip ended.
    ClipRepetitionEnd { clip_id: ClipId, clip_repetition: usize },
    /// A clip ended (all its repetitions).
    ClipEnd { clip_id: ClipId },
    /// A repetition of the animation ended.
    AnimationRepetitionEnd { animation_repetition: usize },
    /// The animation ended (all its repetitions).
    AnimationEnd,
}

} // verus!
