use vstd::prelude::*;

use std::sync::Arc;

use crate::animation::AnimationDirection;
use crate::animator::cache::{cache_well_formed, AnimationCache, AnimationCacheMessage, CacheFrame, CacheFrameView};
use crate::clip::ClipId;
use crate::components::spritesheet_animation::AnimationProgress;
use crate::events::Marker;

verus! {

/// An event produced when a frame is played, with the information available at the iterator's level.
#[derive(Debug, Clone, Copy, PartialEq, Eq, Hash, Structural)]
pub enum AnimationIteratorEvent {
    MarkerHit {
        marker_id: Marker,
        animation_repetition: usize,
        clip_id: ClipId,
        clip_repetition: usize,
    },
    ClipRepetitionEnd { clip_id: ClipId, clip_repetition: usize },
    ClipEnd { clip_id: ClipId },
    AnimationRepetitionEnd { animation_repetition: usize },
}

/// A cached frame, completed with the animation repetition it is played in.
pub struct IteratorFrame {
    pub atlas_index: usize,
    /// How long the frame is displayed, in milliseconds
    pub duration: u32,
    pub clip_id: ClipId,
    pub clip_repetition: usize,
    pub animation_repetition: usize,
    pub events: Vec<AnimationIteratorEvent>,
}

/// The mathematical content of an [IteratorFrame].
pub struct IteratorFrameView {
    pub atlas_index: usize,
    pub duration: u32,
    pub clip_id: ClipId,
    pub clip_repetition: usize,
    pub animation_repetition: usize,
    pub events: Seq<AnimationIteratorEvent>,
}

impl View for IteratorFrame {
    type V = IteratorFrameView;

    open spec fn view(&self) -> IteratorFrameView {
        IteratorFrameView {
            atlas_index: self.atlas_index,
            duration: self.duration,
            clip_id: self.clip_id,
            clip_repetition: self.clip_repetition,
            animation_repetition: self.animation_repetition,
            events: self.events@,
        }
    }
}

impl IteratorFrame {
    /// A copy of this frame.
    pub fn duplicate(&self) -> (r: IteratorFrame)
        ensures
            r@ == self@,
    {
        IteratorFrame {
            atlas_index: self.atlas_index,
            duration: self.duration,
            clip_id: self.clip_id,
            clip_repetition: self.clip_repetition,
            animation_repetition: self.animation_repetition,
            events: self.events.clone(),
        }
    }
}

/// A cache event completed with the animation repetition.
pub open spec fn promote(e: AnimationCacheMessage, animation_repetition: usize) -> AnimationIteratorEvent {
    match e {
        AnimationCacheMessage::MarkerHit { marker_id, clip_id, clip_repetition } => {
            AnimationIteratorEvent::MarkerHit { marker_id, animation_repetition, clip_id, clip_repetition }
        },
        AnimationCacheMessage::ClipRepetitionEnd { clip_id, clip_repetition } => {
            AnimationIteratorEvent::ClipRepetitionEnd { clip_id, clip_repetition }
        },
        AnimationCacheMessage::ClipEnd { clip_id } => AnimationIteratorEvent::ClipEnd { clip_id },
    }
}

/// Cache events completed with the animation repetition, in order.
pub open spec fn promoted(events: Seq<AnimationCacheMessage>, animation_repetition: usize) -> Seq<
    AnimationIteratorEvent,
> {
    events.map_values(|e: AnimationCacheMessage| promote(e, animation_repetition))
}

/// The frames played during an animation repetition: the pong frames on odd repetitions of a
/// ping-pong animation, the regular frames otherwise.
pub open spec fn frames_for(cache: AnimationCache, repetition: usize) -> Seq<CacheFrame> {
    match cache.frames_pong {
        Some(pong) => if repetition % 2 == 0 {
            cache.frames@
        } else {
            pong@
        },
        None => cache.frames@,
    }
}

/// The end events of the repetition that ended with `last` (if any), reported on the first
/// frame of repetition `repetition`.
pub open spec fn repetition_end_events(last: Option<CacheFrameView>, repetition: usize) -> Seq<
    AnimationIteratorEvent,
> {
    match last {
        Some(f) => seq![
            AnimationIteratorEvent::ClipRepetitionEnd { clip_id: f.clip_id, clip_repetition: f.clip_repetition },
            AnimationIteratorEvent::ClipEnd { clip_id: f.clip_id },
            AnimationIteratorEvent::AnimationRepetitionEnd {
                animation_repetition: if repetition == 0 { 0 } else { (repetition - 1) as usize },
            },
        ],
        None => Seq::empty(),
    }
}

/// The frame a new repetition starts from: the second one for a ping-pong animation, whose
/// turning frame is not repeated, unless it has a single frame; the first one otherwise.
pub open spec fn restart_frame(cache: AnimationCache) -> usize {
    if cache.animation_direction == AnimationDirection::PingPong && cache.frames.len() > 1 {
        1
    } else {
        0
    }
}

/// The progress after playing the frame at `p`: the next frame, or past the last frame the first
/// frame of the next repetition (the second one after the first repetition of a ping-pong
/// animation), unless the last repetition is over.
pub open spec fn advance(cache: AnimationCache, p: AnimationProgress) -> AnimationProgress {
    let frame = p.frame + 1;
    if frame >= cache.frames.len() {
        let repetition = (p.repetition + 1) as usize;
        let restart = match cache.repetitions {
            Some(n) => repetition < n,
            None => true,
        };
        if restart {
            AnimationProgress {
                frame: restart_frame(cache),
                repetition,
            }
        } else {
            AnimationProgress { frame: frame as usize, repetition }
        }
    } else {
        AnimationProgress { frame: frame as usize, repetition: p.repetition }
    }
}

/// Whether a progress designates a frame and a repetition of the animation.
pub open spec fn valid_progress(cache: AnimationCache, p: AnimationProgress) -> bool {
    &&& p.frame < cache.frames.len()
    &&& match cache.repetitions {
        Some(n) => p.repetition < n,
        None => true,
    }
}

/// The frame that the iterator plays from `progress` (with `last` the last frame of the repetition
/// that just ended, if its end events are still to report), with its progress; `None` past the end.
pub open spec fn played_frame(
    cache: AnimationCache,
    progress: AnimationProgress,
    last: Option<CacheFrameView>,
) -> Option<(IteratorFrameView, AnimationProgress)> {
    let frames = frames_for(cache, progress.repetition);
    if progress.frame < frames.len() {
        let cached = frames[progress.frame as int]@;
        Some(
            (
                IteratorFrameView {
                    atlas_index: cached.atlas_index,
                    duration: cached.duration,
                    clip_id: cached.clip_id,
                    clip_repetition: cached.clip_repetition,
                    animation_repetition: progress.repetition,
                    events: promoted(cached.messages, progress.repetition) + repetition_end_events(
                        last,
                        progress.repetition,
                    ),
                },
                progress,
            ),
        )
    } else {
        None
    }
}

/// The progress of the iterator after playing from `progress` (unchanged past the end).
pub open spec fn progress_after(cache: AnimationCache, progress: AnimationProgress) -> AnimationProgress {
    if progress.frame < frames_for(cache, progress.repetition).len() {
        advance(cache, progress)
    } else {
        progress
    }
}

/// The repetition-end frame the iterator holds after playing from `progress`.
pub open spec fn just_ended_after(
    cache: AnimationCache,
    progress: AnimationProgress,
    last: Option<CacheFrameView>,
) -> Option<CacheFrameView> {
    let frames = frames_for(cache, progress.repetition);
    if progress.frame < frames.len() {
        if progress.frame + 1 >= cache.frames.len() {
            Some(frames[progress.frame as int]@)
        } else {
            None
        }
    } else {
        last
    }
}

/// Playing from `progress` does not overflow the repetition counter.
pub open spec fn can_play(cache: AnimationCache, progress: AnimationProgress) -> bool {
    progress.frame < frames_for(cache, progress.repetition).len() && progress.frame + 1
        >= cache.frames.len() ==> progress.repetition < usize::MAX
}

/// Whether a progress designates a frame and a repetition of the animation (see [valid_progress]).
pub fn progress_is_valid(cache: &AnimationCache, p: AnimationProgress) -> (r: bool)
    ensures
        r == valid_progress(*cache, p),
{
    p.frame < cache.frames.len() && match cache.repetitions {
        Some(n) => p.repetition < n,
        None => true,
    }
}

/// Whether playing from a progress does not overflow the repetition counter (see [can_play]).
pub fn progress_is_playable(cache: &AnimationCache, p: AnimationProgress) -> (r: bool)
    ensures
        r == can_play(*cache, p),
{
    let len = match &cache.frames_pong {
        Some(pong) => if p.repetition % 2 != 0 {
            pong.len()
        } else {
            cache.frames.len()
        },
        None => cache.frames.len(),
    };
    !(p.frame < len && p.frame + 1 >= cache.frames.len()) || p.repetition < usize::MAX
}

/// The number of plays from `progress` up to and including the first frame that lasts some
/// time, or up to the end of the animation (the play that finds no frame), when that takes at
/// most `budget` plays, none of which overflows the repetition counter; `None` otherwise.
pub open spec fn zero_run(cache: AnimationCache, progress: AnimationProgress, budget: nat) -> Option<nat>
    decreases budget,
{
    if budget == 0 || !can_play(cache, progress) {
        None
    } else {
        match played_frame(cache, progress, None) {
            None => Some(1nat),
            Some((f, _)) => if f.duration > 0 {
                Some(1nat)
            } else {
                match zero_run(cache, progress_after(cache, progress), (budget - 1) as nat) {
                    Some(k) => Some(k + 1),
                    None => None,
                }
            },
        }
    }
}

/// How many plays a run of frames that last 0 ms may take: one more than the frames of
/// `n + 1` repetitions for an animation played `n` times, of three repetitions for a looping
/// one. A longer run only happens when whole repetitions last 0 ms.
pub open spec fn run_budget(cache: AnimationCache) -> nat {
    let reps: nat = match cache.repetitions {
        Some(n) => n as nat,
        None => 2,
    };
    (reps + 1) * cache.frames@.len() + 1
}

/// A larger budget does not change a run that ends within the smaller one.
pub proof fn lemma_zero_run_budget(cache: AnimationCache, progress: AnimationProgress, b1: nat, b2: nat)
    requires
        b1 <= b2,
        zero_run(cache, progress, b1) is Some,
    ensures
        zero_run(cache, progress, b2) == zero_run(cache, progress, b1),
    decreases b1,
{
    if b1 > 0 && can_play(cache, progress) {
        if let Some((f, _)) = played_frame(cache, progress, None) {
            if f.duration == 0 {
                lemma_zero_run_budget(cache, progress_after(cache, progress), (b1 - 1) as nat, (b2 - 1) as nat);
            }
        }
    }
}

/// The duration of the frame played from `p`, if there is one.
fn duration_at(cache: &AnimationCache, p: AnimationProgress) -> (r: Option<u32>)
    ensures
        match played_frame(*cache, p, None) {
            Some((f, _)) => r == Some(f.duration),
            None => r is None,
        },
{
    let frames = match &cache.frames_pong {
        Some(pong) => if p.repetition % 2 != 0 {
            pong
        } else {
            &cache.frames
        },
        None => &cache.frames,
    };
    if p.frame < frames.len() {
        Some(frames[p.frame].duration)
    } else {
        None
    }
}

/// The progress after playing from `p` (see [progress_after]).
fn progress_following(cache: &AnimationCache, p: AnimationProgress) -> (r: AnimationProgress)
    requires
        can_play(*cache, p),
    ensures
        r == progress_after(*cache, p),
{
    let len = match &cache.frames_pong {
        Some(pong) => if p.repetition % 2 != 0 {
            pong.len()
        } else {
            cache.frames.len()
        },
        None => cache.frames.len(),
    };
    if p.frame >= len {
        return p;
    }
    let frame = p.frame + 1;
    if frame >= cache.frames.len() {
        let repetition = p.repetition + 1;
        let restart = match cache.repetitions {
            Some(n) => repetition < n,
            None => true,
        };
        if restart {
            let first = match cache.animation_direction {
                AnimationDirection::PingPong => if cache.frames.len() > 1 { 1 } else { 0 },
                _ => 0,
            };
            AnimationProgress { frame: first, repetition }
        } else {
            AnimationProgress { frame, repetition }
        }
    } else {
        AnimationProgress { frame, repetition: p.repetition }
    }
}

/// Whether the run of frames played from `p` reaches, within [run_budget], a frame that
/// lasts some time or the end of the animation (see [zero_run]).
pub fn zero_run_ends(cache: &AnimationCache, p: AnimationProgress) -> (r: bool)
    ensures
        r == zero_run(*cache, p, run_budget(*cache)) is Some,
{
    let len = cache.frames.len() as u128;
    let reps: u128 = match cache.repetitions {
        Some(n) => n as u128,
        None => 2,
    };
    assert((reps + 1) * len + 1 <= u128::MAX) by (nonlinear_arith)
        requires
            reps <= 0xffff_ffff_ffff_ffff,
            len <= 0xffff_ffff_ffff_ffff,
    ;
    let mut budget: u128 = (reps + 1) * len + 1;
    let mut q = p;
    loop
        invariant
            (zero_run(*cache, p, run_budget(*cache)) is Some) == (zero_run(*cache, q, budget as nat) is Some),
        decreases budget,
    {
        if budget == 0 || !progress_is_playable(cache, q) {
            return false;
        }
        match duration_at(cache, q) {
            None => {
                return true;
            },
            Some(d) => {
                if d > 0 {
                    return true;
                }
            },
        }
        q = progress_following(cache, q);
        budget = budget - 1;
    }
}

/// An iterator that advances an animation frame by frame, until the end of the animation.
pub struct AnimationIterator {
    /// The cache that holds the frames of one repetition of the animation
    cache: Arc<AnimationCache>,
    /// The progress of the next frame to play
    next_frame_progress: AnimationProgress,
    /// The last frame of the repetition that just ended, so that its end events are
    /// reported with the next frame
    repetition_just_ended: Option<CacheFrame>,
}

impl AnimationIterator {
    /// The cache the iterator plays.
    pub closed spec fn cache(&self) -> AnimationCache {
        *self.cache
    }

    /// The progress of the next frame to play.
    pub closed spec fn progress(&self) -> AnimationProgress {
        self.next_frame_progress
    }

    /// The last frame of the repetition that just ended, if its end events are still to report.
    pub closed spec fn just_ended(&self) -> Option<CacheFrameView> {
        match self.repetition_just_ended {
            Some(f) => Some(f@),
            None => None,
        }
    }

    /// An iterator at the first frame of the first repetition of `cache`.
    pub fn new(cache: Arc<AnimationCache>) -> (it: Self)
        ensures
            it.cache() == *cache,
            it.progress() == (AnimationProgress { frame: 0, repetition: 0 }),
            it.just_ended() is None,
    {
        AnimationIterator {
            cache,
            next_frame_progress: AnimationProgress { frame: 0, repetition: 0 },
            repetition_just_ended: None,
        }
    }

    /// The progress of the next frame to play.
    pub fn next_progress(&self) -> (p: AnimationProgress)
        ensures
            p == self.progress(),
    {
        self.next_frame_progress
    }

    /// Whether the next frame can be played without overflowing the repetition counter.
    pub fn can_play_next(&self) -> (r: bool)
        ensures
            r == can_play(self.cache(), self.progress()),
    {
        progress_is_playable(&self.cache, self.next_frame_progress)
    }

    /// The cache the iterator plays.
    pub fn played_cache(&self) -> (r: &AnimationCache)
        ensures
            *r == self.cache(),
    {
        &self.cache
    }

    /// Sets the progress of the next frame to play.
    ///
    /// Returns false, and changes nothing, if the frame or the repetition is not part of the animation.
    pub fn to(&mut self, progress: AnimationProgress) -> (ok: bool)
        ensures
            ok == valid_progress(old(self).cache(), progress),
            final(self).cache() == old(self).cache(),
            ok ==> final(self).progress() == progress && final(self).just_ended() is None,
            !ok ==> final(self).progress() == old(self).progress() && final(self).just_ended()
                == old(self).just_ended(),
    {
        if progress.frame >= self.cache.frames.len() {
            false
        } else {
            let within = match self.cache.repetitions {
                Some(repetitions) => progress.repetition < repetitions,
                None => true,
            };
            if !within {
                false
            } else {
                self.next_frame_progress = progress;
                self.repetition_just_ended = None;
                true
            }
        }
    }

    /// Cache events completed with the animation repetition.
    fn promote_events(events: &Vec<AnimationCacheMessage>, animation_repetition: usize) -> (r: Vec<
        AnimationIteratorEvent,
    >)
        ensures
            r@ == promoted(events@, animation_repetition),
    {
        let mut r: Vec<AnimationIteratorEvent> = Vec::new();
        let mut k: usize = 0;
        while k < events.len()
            invariant
                0 <= k <= events.len(),
                r@ == promoted(events@, animation_repetition).take(k as int),
            decreases events.len() - k,
        {
            let e = match events[k] {
                AnimationCacheMessage::MarkerHit { marker_id, clip_id, clip_repetition } => {
                    AnimationIteratorEvent::MarkerHit { marker_id, animation_repetition, clip_id, clip_repetition }
                },
                AnimationCacheMessage::ClipRepetitionEnd { clip_id, clip_repetition } => {
                    AnimationIteratorEvent::ClipRepetitionEnd { clip_id, clip_repetition }
                },
                AnimationCacheMessage::ClipEnd { clip_id } => AnimationIteratorEvent::ClipEnd { clip_id },
            };
            r.push(e);
            proof {
                assert(r@ =~= promoted(events@, animation_repetition).take(k + 1));
            }
            k = k + 1;
        }
        proof {
            assert(promoted(events@, animation_repetition).take(events.len() as int) =~= promoted(
                events@,
                animation_repetition,
            ));
        }
        r
    }

    /// Plays the next frame: returns it with its progress, or `None` once the animation is over.
    ///
    /// The first frame of a repetition also reports the end of the previous repetition
    /// (of its last clip repetition, of its last clip and of the animation repetition).
    pub fn next(&mut self) -> (r: Option<(IteratorFrame, AnimationProgress)>)
        requires
            can_play(old(self).cache(), old(self).progress()),
        ensures
            final(self).cache() == old(self).cache(),
            final(self).progress() == progress_after(old(self).cache(), old(self).progress()),
            final(self).just_ended() == just_ended_after(
                old(self).cache(),
                old(self).progress(),
                old(self).just_ended(),
            ),
            match played_frame(old(self).cache(), old(self).progress(), old(self).just_ended()) {
                Some((f, p)) => r matches Some((frame, progress)) && frame@ == f && progress == p,
                None => r is None,
            },
    {
        let progress = self.next_frame_progress;
        let use_pong = match &self.cache.frames_pong {
            Some(_) => progress.repetition % 2 != 0,
            None => false,
        };
        let len = if use_pong {
            match &self.cache.frames_pong {
                Some(pong) => pong.len(),
                None => 0,
            }
        } else {
            self.cache.frames.len()
        };
        if progress.frame >= len {
            return None;
        }
        let cached_frame = if use_pong {
            match &self.cache.frames_pong {
                Some(pong) => pong[progress.frame].duplicate(),
                None => self.cache.frames[progress.frame].duplicate(),
            }
        } else {
            self.cache.frames[progress.frame].duplicate()
        };
        let mut frame = IteratorFrame {
            atlas_index: cached_frame.atlas_index,
            duration: cached_frame.duration,
            clip_id: cached_frame.clip_id,
            clip_repetition: cached_frame.clip_repetition,
            animation_repetition: progress.repetition,
            events: Self::promote_events(&cached_frame.messages, progress.repetition),
        };
        let ghost promoted_events = frame.events@;
        match &self.repetition_just_ended {
            Some(previous_frame) => {
                frame.events.push(
                    AnimationIteratorEvent::ClipRepetitionEnd {
                        clip_id: previous_frame.clip_id,
                        clip_repetition: previous_frame.clip_repetition,
                    },
                );
                frame.events.push(AnimationIteratorEvent::ClipEnd { clip_id: previous_frame.clip_id });
                frame.events.push(
                    AnimationIteratorEvent::AnimationRepetitionEnd {
                        animation_repetition: progress.repetition.saturating_sub(1),
                    },
                );
                proof {
                    assert(frame.events@ =~= promoted_events + repetition_end_events(old(self).just_ended(), progress.repetition));
                }
            },
            None => {
                proof {
                    assert(frame.events@ =~= promoted_events + repetition_end_events(old(self).just_ended(), progress.repetition));
                }
            },
        }
        self.repetition_just_ended = None;
        let mut next = AnimationProgress { frame: progress.frame + 1, repetition: progress.repetition };
        if next.frame >= self.cache.frames.len() {
            next.repetition = progress.repetition + 1;
            self.repetition_just_ended = Some(cached_frame);
            let restart = match self.cache.repetitions {
                Some(repetitions) => next.repetition < repetitions,
                None => true,
            };
            if restart {
                next.frame = match self.cache.animation_direction {
                    AnimationDirection::PingPong => if self.cache.frames.len() > 1 { 1 } else { 0 },
                    _ => 0,
                };
            }
        }
        self.next_frame_progress = next;
        Some((frame, progress))
    }
}

} // verus!

verus! {

/// Seeking to a progress of the animation, then playing, plays the cached frame at that
/// progress with its own events only (no end event of an earlier repetition).
pub proof fn lemma_seek_then_play(cache: AnimationCache, p: AnimationProgress)
    requires
        cache_well_formed(cache),
        valid_progress(cache, p),
    ensures
        p.repetition < usize::MAX ==> can_play(cache, p),
        played_frame(cache, p, None) matches Some((f, q)) && q == p && f.atlas_index == frames_for(
            cache,
            p.repetition,
        )[p.frame as int].atlas_index && f.duration == frames_for(cache, p.repetition)[p.frame as int].duration
            && f.animation_repetition == p.repetition && f.events == promoted(
            frames_for(cache, p.repetition)[p.frame as int].messages@,
            p.repetition,
        ),
{
    let frames = frames_for(cache, p.repetition);
    assert(frames.len() == cache.frames.len());
    assert(promoted(frames[p.frame as int].messages@, p.repetition) + Seq::<AnimationIteratorEvent>::empty()
        =~= promoted(frames[p.frame as int].messages@, p.repetition));
}

/// Playing a frame of the animation leads either to another frame of the animation or to
/// the end: the iterator never plays a repetition past the last one.
pub proof fn lemma_play_stays_within(cache: AnimationCache, p: AnimationProgress, last: Option<CacheFrameView>)
    requires
        cache_well_formed(cache),
        valid_progress(cache, p),
    ensures
        valid_progress(cache, progress_after(cache, p)) || played_frame(
            cache,
            progress_after(cache, p),
            last,
        ) is None,
{
    assert(frames_for(cache, p.repetition).len() == cache.frames.len());
    let q = advance(cache, p);
    assert(frames_for(cache, q.repetition).len() == cache.frames.len());
}

/// Once the animation is over, playing changes nothing and plays nothing.
pub proof fn lemma_finished_stays_finished(cache: AnimationCache, p: AnimationProgress, last: Option<CacheFrameView>)
    requires
        played_frame(cache, p, last) is None,
    ensures
        progress_after(cache, p) == p,
        just_ended_after(cache, p, last) == last,
        played_frame(cache, progress_after(cache, p), just_ended_after(cache, p, last)) is None,
{
}

/// Progress numbering: within a repetition the frame index counts up one by one; after the
/// last frame it wraps around to the first frame of the next repetition (the second frame for
/// a ping-pong animation of several frames, whose turning frame is not repeated), and after the last
/// repetition it stays past the end.
pub proof fn lemma_progress_wraps(cache: AnimationCache, p: AnimationProgress)
    requires
        cache_well_formed(cache),
        valid_progress(cache, p),
        can_play(cache, p),
    ensures
        ({
            let q = progress_after(cache, p);
            let last = p.frame + 1 == cache.frames.len();
            let more = match cache.repetitions {
                Some(n) => p.repetition + 1 < n,
                None => true,
            };
            &&& !last ==> q == AnimationProgress { frame: (p.frame + 1) as usize, repetition: p.repetition }
            &&& last && more ==> q == AnimationProgress {
                frame: restart_frame(cache),
                repetition: (p.repetition + 1) as usize,
            }
            &&& last && !more ==> q.frame == cache.frames.len() && q.repetition == p.repetition + 1
                && played_frame(cache, q, None) is None
        }),
{
    assert(frames_for(cache, p.repetition).len() == cache.frames.len());
    let q = progress_after(cache, p);
    assert(frames_for(cache, q.repetition).len() == cache.frames.len());
}

/// A looping animation never ends: from any frame of it, playing shows a frame and leads to
/// another frame of it.
pub proof fn lemma_loop_never_ends(cache: AnimationCache, p: AnimationProgress, last: Option<CacheFrameView>)
    requires
        cache_well_formed(cache),
        cache.repetitions is None,
        valid_progress(cache, p),
    ensures
        played_frame(cache, p, last) is Some,
        valid_progress(cache, progress_after(cache, p)),
{
    assert(frames_for(cache, p.repetition).len() == cache.frames.len());
}

} // verus!

verus! {

/// The progress after `n` plays from `p`.
pub open spec fn progress_after_plays(cache: AnimationCache, p: AnimationProgress, n: nat) -> AnimationProgress
    decreases n,
{
    if n == 0 {
        p
    } else {
        progress_after(cache, progress_after_plays(cache, p, (n - 1) as nat))
    }
}

/// A looping animation plays forever: however many plays are made from one of its frames, the
/// next play shows a frame of it, which can be played without overflowing the repetition counter
/// as long as the count of repetitions stays below its limit; the repetition never decreases and
/// grows by at most one per play.
pub proof fn lemma_loop_plays_forever(
    cache: AnimationCache,
    p: AnimationProgress,
    n: nat,
    last: Option<CacheFrameView>,
)
    requires
        cache_well_formed(cache),
        cache.repetitions is None,
        valid_progress(cache, p),
        p.repetition + n < usize::MAX,
    ensures
        ({
            let q = progress_after_plays(cache, p, n);
            &&& valid_progress(cache, q)
            &&& can_play(cache, q)
            &&& played_frame(cache, q, last) is Some
            &&& p.repetition <= q.repetition <= p.repetition + n
        }),
    decreases n,
{
    let q = progress_after_plays(cache, p, n);
    if n > 0 {
        let prev = progress_after_plays(cache, p, (n - 1) as nat);
        lemma_loop_plays_forever(cache, p, (n - 1) as nat, last);
        lemma_progress_wraps(cache, prev);
        lemma_loop_never_ends(cache, prev, last);
    }
    lemma_loop_never_ends(cache, q, last);
    assert(frames_for(cache, q.repetition).len() == cache.frames.len());
}

} // verus!

verus! {

/// The plays left from `p` in an animation played `n` times, up to and including the play
/// that finds no frame.
spec fn plays_left(cache: AnimationCache, p: AnimationProgress, n: nat) -> int {
    if p.frame >= cache.frames.len() {
        1
    } else {
        (n - 1 - p.repetition) * cache.frames.len() + (cache.frames.len() - p.frame) + 1
    }
}

proof fn lemma_run_within(cache: AnimationCache, p: AnimationProgress, n: nat, b: nat)
    requires
        cache_well_formed(cache),
        cache.repetitions == Some(n as usize),
        n <= usize::MAX,
        valid_progress(cache, p) || p.frame >= cache.frames.len(),
        b >= plays_left(cache, p, n),
    ensures
        zero_run(cache, p, b) is Some,
    decreases plays_left(cache, p, n),
{
    let len = cache.frames.len();
    assert(frames_for(cache, p.repetition).len() == len);
    if p.frame < len {
        let q = progress_after(cache, p);
        assert(frames_for(cache, q.repetition).len() == len);
        let k: int = n - 1 - p.repetition;
        assert(k * len >= 0) by (nonlinear_arith)
            requires
                k >= 0,
        ;
        if p.frame + 1 >= len && p.repetition + 1 < n {
            assert(k * len == (k - 1) * len + len) by (nonlinear_arith);
        }
        if let Some((f, _)) = played_frame(cache, p, None) {
            if f.duration == 0 {
                lemma_run_within(cache, q, n, (b - 1) as nat);
            }
        }
    }
}

/// An animation played a finite number of times never stalls on frames that last 0 ms: from
/// any of its frames, or past its end, the frames played reach, within [run_budget] plays, a
/// frame that lasts some time or the end of the animation.
pub proof fn lemma_finite_run_ends(cache: AnimationCache, p: AnimationProgress)
    requires
        cache_well_formed(cache),
        cache.repetitions is Some,
        valid_progress(cache, p) || p.frame >= cache.frames.len(),
    ensures
        zero_run(cache, p, run_budget(cache)) is Some,
{
    let n = cache.repetitions->0 as nat;
    let len = cache.frames.len();
    if p.frame < len {
        let k: int = n - 1 - p.repetition;
        assert(k * len <= n * len) by (nonlinear_arith)
            requires
                0 <= k <= n,
        ;
        assert((n + 1) * len == n * len + len) by (nonlinear_arith);
    }
    lemma_run_within(cache, p, n, run_budget(cache));
}

} // verus!

verus! {

/// Plays can be counted from the first one: `n + 1` plays from `p` lead where `n` plays lead
/// from the progress after the first.
pub proof fn lemma_plays_from_front(cache: AnimationCache, p: AnimationProgress, n: nat)
    ensures
        progress_after_plays(cache, p, n + 1) == progress_after_plays(cache, progress_after(cache, p), n),
    decreases n,
{
    let q = progress_after(cache, p);
    assert(progress_after_plays(cache, p, n + 1) == progress_after(cache, progress_after_plays(cache, p, n)));
    if n > 0 {
        lemma_plays_from_front(cache, p, (n - 1) as nat);
        assert(progress_after_plays(cache, q, n) == progress_after(cache, progress_after_plays(cache, q, (n - 1) as nat)));
    } else {
        assert(progress_after_plays(cache, p, 0) == p);
        assert(progress_after_plays(cache, q, 0) == q);
    }
}

/// A run from `p` ends within `b` plays if the play number `d` (counting from one, `d <= b`)
/// finds no frame or a frame that lasts some time, and the first `d` plays do not overflow the
/// repetition counter.
proof fn lemma_run_reaches(cache: AnimationCache, p: AnimationProgress, d: nat, b: nat)
    requires
        1 <= d <= b,
        forall|k: nat| k < d ==> can_play(cache, #[trigger] progress_after_plays(cache, p, k)),
        match played_frame(cache, progress_after_plays(cache, p, (d - 1) as nat), None) {
            Some((f, _)) => f.duration > 0,
            None => true,
        },
    ensures
        zero_run(cache, p, b) is Some,
    decreases d,
{
    assert(progress_after_plays(cache, p, 0) == p);
    assert(can_play(cache, progress_after_plays(cache, p, 0)));
    if d > 1 {
        if let Some((f, _)) = played_frame(cache, p, None) {
            if f.duration == 0 {
                let q = progress_after(cache, p);
                assert forall|k: nat| k < (d - 1) as nat implies can_play(cache, #[trigger] progress_after_plays(cache, q, k)) by {
                    lemma_plays_from_front(cache, p, k);
                    assert(can_play(cache, progress_after_plays(cache, p, k + 1)));
                }
                lemma_plays_from_front(cache, p, (d - 2) as nat);
                lemma_run_reaches(cache, q, (d - 1) as nat, (b - 1) as nat);
            }
        }
    }
}

/// Whether a play shows a frame that lasts 0 ms.
pub open spec fn shows_zero_ms_frame(played: Option<(IteratorFrameView, AnimationProgress)>) -> bool {
    match played {
        Some((f, _)) => f.duration == 0,
        None => false,
    }
}

/// A looping animation gives up on a run of frames that last 0 ms only when the next
/// [run_budget] plays (more than three repetitions' worth) all show frames that last 0 ms, that
/// is, when whole repetitions of it last 0 ms.
pub proof fn lemma_loop_run_fails_only_on_zero_repetitions(cache: AnimationCache, p: AnimationProgress)
    requires
        cache_well_formed(cache),
        cache.repetitions is None,
        valid_progress(cache, p),
        p.repetition + run_budget(cache) < usize::MAX,
        zero_run(cache, p, run_budget(cache)) is None,
    ensures
        forall|k: nat| #![trigger progress_after_plays(cache, p, k)]
            k < run_budget(cache) ==> shows_zero_ms_frame(played_frame(cache, progress_after_plays(cache, p, k), None)),
{
    let b = run_budget(cache);
    assert forall|k: nat| #![trigger progress_after_plays(cache, p, k)]
        k < b implies shows_zero_ms_frame(played_frame(cache, progress_after_plays(cache, p, k), None)) by {
        lemma_loop_plays_forever(cache, p, k, None);
        if !shows_zero_ms_frame(played_frame(cache, progress_after_plays(cache, p, k), None)) {
            assert forall|j: nat| j < k + 1 implies can_play(cache, #[trigger] progress_after_plays(cache, p, j)) by {
                lemma_loop_plays_forever(cache, p, j, None);
            }
            lemma_run_reaches(cache, p, k + 1, b);
        }
    }
}

} // verus!
