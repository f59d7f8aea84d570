use vstd::prelude::*;

use crate::clip::{same_settings, Clip, ClipId};
use crate::easing::Easing;

verus! {

/// The duration of an [Animation].
#[derive(Debug, Clone, Copy, PartialEq, Eq, Structural)]
pub enum AnimationDuration {
    /// Specifies the duration of one frame in milliseconds (default = `PerFrame(100)`).
    PerFrame(u32),
    /// Specifies the duration of one repetition of the animation in milliseconds.
    PerRepetition(u32),
}

impl Default for AnimationDuration {
    fn default() -> (r: Self)
        ensures
            r == AnimationDuration::PerFrame(100),
    {
        AnimationDuration::PerFrame(100)
    }
}

/// How many times an [Animation] repeats.
#[derive(Debug, Clone, Copy, PartialEq, Eq, Hash, Structural)]
pub enum AnimationRepeat {
    /// Loops forever (default).
    Loop,
    /// Repeats n times.
    Times(usize),
}

impl Default for AnimationRepeat {
    fn default() -> (r: Self)
        ensures
            r == AnimationRepeat::Loop,
    {
        AnimationRepeat::Loop
    }
}

/// The direction in which the frames of an [Animation] are played.
#[derive(Debug, Clone, Copy, PartialEq, Eq, Hash, Structural)]
pub enum AnimationDirection {
    /// Frames play from left to right (default).
    Forwards,
    /// Frames play from right to left.
    Backwards,
    /// Alternates at each repetition of the animation, starting from left to right.
    PingPong,
}

impl Default for AnimationDirection {
    fn default() -> (r: Self)
        ensures
            r == AnimationDirection::Forwards,
    {
        AnimationDirection::Forwards
    }
}

/// A playable animation: a sequence of [Clip]s with optional playback parameters
/// that combine with the clips' own.
pub struct Animation {
    pub clips: Vec<Clip>,
    pub duration: Option<AnimationDuration>,
    pub repetitions: Option<AnimationRepeat>,
    pub direction: Option<AnimationDirection>,
    pub easing: Option<Easing>,
}

/// Whether two animations carry the same animation-level parameters.
pub open spec fn same_parameters(a: Animation, b: Animation) -> bool {
    &&& a.duration == b.duration
    &&& a.repetitions == b.repetitions
    &&& a.direction == b.direction
    &&& a.easing == b.easing
}

/// `new` is `old` with `added` appended to the frames of its last clip, all else unchanged.
pub open spec fn frames_appended(new: Animation, old: Animation, added: Seq<usize>) -> bool {
    &&& same_parameters(new, old)
    &&& old.clips.len() > 0
    &&& new.clips.len() == old.clips.len()
    &&& forall|i: int| 0 <= i < old.clips.len() - 1 ==> new.clips[i] == old.clips[i]
    &&& same_settings(new.clips@.last(), old.clips@.last())
    &&& new.clips@.last().marker_map() == old.clips@.last().marker_map()
    &&& new.clips@.last().atlas_indices@ == old.clips@.last().atlas_indices@ + added
}

/// Appending `s1` then `s2` to the last clip appends `s1 + s2`.
pub proof fn lemma_frames_appended_trans(a: Animation, b: Animation, c: Animation, s1: Seq<usize>, s2: Seq<usize>)
    requires
        frames_appended(b, a, s1),
        frames_appended(c, b, s2),
    ensures
        frames_appended(c, a, s1 + s2),
{
    assert(c.clips@.last().atlas_indices@ =~= a.clips@.last().atlas_indices@ + (s1 + s2));
}

impl Animation {
    /// An animation made of a single empty clip, identified by `first_clip_id`, with no parameter.
    pub fn empty(first_clip_id: ClipId) -> (a: Animation)
        ensures
            a.clips.len() == 1,
            a.clips[0].id == first_clip_id,
            a.clips[0].atlas_indices@.len() == 0,
            a.clips[0].duration is None,
            a.clips[0].repetitions is None,
            a.clips[0].direction is None,
            a.clips[0].easing is None,
            a.clips[0].marker_map().dom().is_empty(),
            a.duration is None,
            a.repetitions is None,
            a.direction is None,
            a.easing is None,
    {
        let mut clips = Vec::new();
        clips.push(Clip::empty(first_clip_id));
        Animation { clips, duration: None, repetitions: None, direction: None, easing: None }
    }

    /// An animation playing a single clip, with no animation-level parameter.
    pub fn from_clip(clip: Clip) -> (a: Animation)
        ensures
            a.clips@ == seq![clip],
            a.duration is None,
            a.repetitions is None,
            a.direction is None,
            a.easing is None,
    {
        let mut clips = Vec::new();
        clips.push(clip);
        Animation { clips, duration: None, repetitions: None, direction: None, easing: None }
    }

    /// An animation playing the given clips in order, with no animation-level parameter.
    pub fn from_clips(clips: Vec<Clip>) -> (a: Animation)
        ensures
            a.clips@ == clips@,
            a.duration is None,
            a.repetitions is None,
            a.direction is None,
            a.easing is None,
    {
        Animation { clips, duration: None, repetitions: None, direction: None, easing: None }
    }

    /// This animation with its duration set.
    pub fn with_duration(self, duration: AnimationDuration) -> (a: Animation)
        ensures
            a.clips@ == self.clips@,
            a.duration == Some(duration),
            a.repetitions == self.repetitions,
            a.direction == self.direction,
            a.easing == self.easing,
    {
        let mut a = self;
        a.duration = Some(duration);
        a
    }

    /// This animation with its repetitions set.
    pub fn with_repetitions(self, repetitions: AnimationRepeat) -> (a: Animation)
        ensures
            a.clips@ == self.clips@,
            a.duration == self.duration,
            a.repetitions == Some(repetitions),
            a.direction == self.direction,
            a.easing == self.easing,
    {
        let mut a = self;
        a.repetitions = Some(repetitions);
        a
    }

    /// This animation with its direction set.
    pub fn with_direction(self, direction: AnimationDirection) -> (a: Animation)
        ensures
            a.clips@ == self.clips@,
            a.duration == self.duration,
            a.repetitions == self.repetitions,
            a.direction == Some(direction),
            a.easing == self.easing,
    {
        let mut a = self;
        a.direction = Some(direction);
        a
    }

    /// This animation with its easing set.
    pub fn with_easing(self, easing: Easing) -> (a: Animation)
        ensures
            a.clips@ == self.clips@,
            a.duration == self.duration,
            a.repetitions == self.repetitions,
            a.direction == self.direction,
            a.easing == Some(easing),
    {
        let mut a = self;
        a.easing = Some(easing);
        a
    }

    /// The [Clip]s that compose this animation.
    pub fn clips(&self) -> (r: &[Clip])
        ensures
            r@ == self.clips@,
    {
        self.clips.as_slice()
    }

    /// The optional duration of this animation.
    pub fn duration(&self) -> (r: &Option<AnimationDuration>)
        ensures
            *r == self.duration,
    {
        &self.duration
    }

    /// The optional number of repetitions of this animation.
    pub fn repetitions(&self) -> (r: &Option<AnimationRepeat>)
        ensures
            *r == self.repetitions,
    {
        &self.repetitions
    }

    /// The optional direction of this animation.
    pub fn direction(&self) -> (r: &Option<AnimationDirection>)
        ensures
            *r == self.direction,
    {
        &self.direction
    }

    /// The optional easing of this animation.
    pub fn easing(&self) -> (r: &Option<Easing>)
        ensures
            *r == self.easing,
    {
        &self.easing
    }
}

} // verus!
