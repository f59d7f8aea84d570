use vstd::prelude::*;

use crate::animation::{AnimationDirection, AnimationDuration};
use crate::clip::ClipId;
use crate::easing::Easing;

verus! {

/// A stage of an animation: a reference to a clip, with optional parameters that override
/// the clip's own (duration, repetitions, direction and easing).
///
/// Simple animations hold a single stage; more complex ones chain several.
#[derive(Debug, Clone, Copy, PartialEq, Eq, Structural)]
pub struct AnimationStage {
    /// The clip played by this stage
    clip_id: ClipId,
    /// The optional duration of this stage
    duration: Option<AnimationDuration>,
    /// The optional repetitions of this stage
    repeat: Option<u32>,
    /// The optional direction of this stage
    direction: Option<AnimationDirection>,
    /// The optional easing of this stage
    easing: Option<Easing>,
}

impl AnimationStage {
    pub closed spec fn spec_clip_id(&self) -> ClipId {
        self.clip_id
    }

    pub closed spec fn spec_duration(&self) -> Option<AnimationDuration> {
        self.duration
    }

    pub closed spec fn spec_repeat(&self) -> Option<u32> {
        self.repeat
    }

    pub closed spec fn spec_direction(&self) -> Option<AnimationDirection> {
        self.direction
    }

    pub closed spec fn spec_easing(&self) -> Option<Easing> {
        self.easing
    }

    /// The stage that plays `clip_id` with the clip's own parameters.
    pub closed spec fn stage_of(clip_id: ClipId) -> Self {
        AnimationStage { clip_id, duration: None, repeat: None, direction: None, easing: None }
    }

    /// A stage that plays `clip_id` with the given parameters.
    pub fn new(
        clip_id: ClipId,
        duration: Option<AnimationDuration>,
        repeat: Option<u32>,
        direction: Option<AnimationDirection>,
        easing: Option<Easing>,
    ) -> (s: Self)
        ensures
            s.spec_clip_id() == clip_id,
            s.spec_duration() == duration,
            s.spec_repeat() == repeat,
            s.spec_direction() == direction,
            s.spec_easing() == easing,
    {
        AnimationStage { clip_id, duration, repeat, direction, easing }
    }

    /// A stage that plays `clip_id` with the clip's own parameters.
    pub fn from_clip(clip_id: ClipId) -> (s: Self)
        ensures
            s == AnimationStage::stage_of(clip_id),
            s.spec_clip_id() == clip_id,
            s.spec_duration() is None,
            s.spec_repeat() is None,
            s.spec_direction() is None,
            s.spec_easing() is None,
    {
        AnimationStage { clip_id, duration: None, repeat: None, direction: None, easing: None }
    }

    pub fn clip_id(&self) -> (r: &ClipId)
        ensures
            *r == self.spec_clip_id(),
    {
        &self.clip_id
    }

    /// Overrides the duration of the clip.
    pub fn set_duration(&mut self, duration: AnimationDuration) -> (r: &mut Self)
        ensures
            r.spec_clip_id() == old(self).spec_clip_id(),
            r.spec_duration() == Some(duration),
            r.spec_repeat() == old(self).spec_repeat(),
            r.spec_direction() == old(self).spec_direction(),
            r.spec_easing() == old(self).spec_easing(),
            *final(self) == *final(r),
    {
        self.duration = Some(duration);
        self
    }

    pub fn duration(&self) -> (r: &Option<AnimationDuration>)
        ensures
            *r == self.spec_duration(),
    {
        &self.duration
    }

    /// Overrides the repetitions of the clip.
    pub fn set_repeat(&mut self, repeat: u32) -> (r: &mut Self)
        ensures
            r.spec_clip_id() == old(self).spec_clip_id(),
            r.spec_duration() == old(self).spec_duration(),
            r.spec_repeat() == Some(repeat),
            r.spec_direction() == old(self).spec_direction(),
            r.spec_easing() == old(self).spec_easing(),
            *final(self) == *final(r),
    {
        self.repeat = Some(repeat);
        self
    }

    pub fn repeat(&self) -> (r: &Option<u32>)
        ensures
            *r == self.spec_repeat(),
    {
        &self.repeat
    }

    /// Overrides the direction of the clip.
    pub fn set_direction(&mut self, direction: AnimationDirection) -> (r: &mut Self)
        ensures
            r.spec_clip_id() == old(self).spec_clip_id(),
            r.spec_duration() == old(self).spec_duration(),
            r.spec_repeat() == old(self).spec_repeat(),
            r.spec_direction() == Some(direction),
            r.spec_easing() == old(self).spec_easing(),
            *final(self) == *final(r),
    {
        self.direction = Some(direction);
        self
    }

    pub fn direction(&self) -> (r: &Option<AnimationDirection>)
        ensures
            *r == self.spec_direction(),
    {
        &self.direction
    }

    /// Overrides the easing of the clip.
    pub fn set_easing(&mut self, easing: Easing) -> (r: &mut Self)
        ensures
            r.spec_clip_id() == old(self).spec_clip_id(),
            r.spec_duration() == old(self).spec_duration(),
            r.spec_repeat() == old(self).spec_repeat(),
            r.spec_direction() == old(self).spec_direction(),
            r.spec_easing() == Some(easing),
            *final(self) == *final(r),
    {
        self.easing = Some(easing);
        self
    }

    pub fn easing(&self) -> (r: &Option<Easing>)
        ensures
            *r == self.spec_easing(),
    {
        &self.easing
    }
}

impl From<ClipId> for AnimationStage {
    fn from(clip_id: ClipId) -> (s: Self) {
        AnimationStage::from_clip(clip_id)
    }
}

impl vstd::std_specs::convert::FromSpecImpl<ClipId> for AnimationStage {
    open spec fn obeys_from_spec() -> bool {
        true
    }

    open spec fn from_spec(clip_id: ClipId) -> Self {
        AnimationStage::stage_of(clip_id)
    }
}

} // verus!
