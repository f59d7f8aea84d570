use vstd::prelude::*;

use std::sync::Arc;

use crate::animator::cache::{cache_well_formed, AnimationCache, CacheFrameView};
use crate::animator::iterator::{
    frames_for, valid_progress, can_play, progress_is_valid, progress_is_playable, just_ended_after, played_frame, progress_after, AnimationIterator, IteratorFrame,
    IteratorFrameView, zero_run, run_budget, zero_run_ends, lemma_zero_run_budget, lemma_finite_run_ends,
    lemma_loop_plays_forever, lemma_loop_run_fails_only_on_zero_repetitions, progress_after_plays, shows_zero_ms_frame,
};
use crate::clip::ClipId;
use crate::animator::iterator::AnimationIteratorEvent;
use crate::components::spritesheet_animation::AnimationProgress;
use crate::events::PlaybackEvent;

verus! {

/// The largest time span the engine can represent, in nanoseconds (that of `std::time::Duration`).
pub const MAX_TIME_NANOS: u128 = 18446744073709551615999999999u128;

/// Nanoseconds in a millisecond.
pub const NANOS_PER_MILLI: u128 = 1000000u128;

/// What ended with the last frame of an animation: its last clip repetition, its last clip,
/// its last repetition and the animation itself.
#[derive(Debug, Clone, Copy, PartialEq, Eq, Structural)]
pub struct PlaybackEnd {
    pub clip_id: ClipId,
    pub clip_repetition: usize,
    pub animation_repetition: usize,
}

/// One step of playback: a frame to show (with its events), or the end of the animation.
pub enum PlaybackStep {
    Play(IteratorFrame, AnimationProgress),
    End(PlaybackEnd),
}

/// The mathematical content of a [PlaybackStep].
pub enum PlaybackStepView {
    Play(IteratorFrameView, AnimationProgress),
    End(PlaybackEnd),
}

impl View for PlaybackStep {
    type V = PlaybackStepView;

    open spec fn view(&self) -> PlaybackStepView {
        match self {
            PlaybackStep::Play(f, p) => PlaybackStepView::Play(f@, *p),
            PlaybackStep::End(e) => PlaybackStepView::End(*e),
        }
    }
}

/// The event reported for an event of a played frame.
pub open spec fn playback_event(e: AnimationIteratorEvent) -> PlaybackEvent {
    match e {
        AnimationIteratorEvent::MarkerHit { marker_id, animation_repetition, clip_id, clip_repetition } => {
            PlaybackEvent::MarkerHit { marker: marker_id, clip_id, clip_repetition, animation_repetition }
        },
        AnimationIteratorEvent::ClipRepetitionEnd { clip_id, clip_repetition } => {
            PlaybackEvent::ClipRepetitionEnd { clip_id, clip_repetition }
        },
        AnimationIteratorEvent::ClipEnd { clip_id } => PlaybackEvent::ClipEnd { clip_id },
        AnimationIteratorEvent::AnimationRepetitionEnd { animation_repetition } => {
            PlaybackEvent::AnimationRepetitionEnd { animation_repetition }
        },
    }
}

/// The events reported for a step: those of the frame played, in order; at the end of the
/// animation, the end of the last clip repetition, of the last clip, of the last animation
/// repetition and of the animation.
pub open spec fn step_events(step: PlaybackStepView) -> Seq<PlaybackEvent> {
    match step {
        PlaybackStepView::Play(f, _) => f.events.map_values(|e: AnimationIteratorEvent| playback_event(e)),
        PlaybackStepView::End(e) => seq![
            PlaybackEvent::ClipRepetitionEnd { clip_id: e.clip_id, clip_repetition: e.clip_repetition },
            PlaybackEvent::ClipEnd { clip_id: e.clip_id },
            PlaybackEvent::AnimationRepetitionEnd { animation_repetition: e.animation_repetition },
            PlaybackEvent::AnimationEnd,
        ],
    }
}

impl PlaybackStep {
    /// The events to report for this step (see [step_events]).
    pub fn events(&self) -> (r: Vec<PlaybackEvent>)
        ensures
            r@ == step_events(self@),
    {
        match self {
            PlaybackStep::Play(frame, _) => {
                let mut r: Vec<PlaybackEvent> = Vec::new();
                let mut k: usize = 0;
                while k < frame.events.len()
                    invariant
                        0 <= k <= frame.events.len(),
                        r@ == frame.events@.take(k as int).map_values(
                            |e: AnimationIteratorEvent| playback_event(e),
                        ),
                    decreases frame.events.len() - k,
                {
                    let e = match frame.events[k] {
                        AnimationIteratorEvent::MarkerHit { marker_id, animation_repetition, clip_id, clip_repetition } => {
                            PlaybackEvent::MarkerHit { marker: marker_id, clip_id, clip_repetition, animation_repetition }
                        },
                        AnimationIteratorEvent::ClipRepetitionEnd { clip_id, clip_repetition } => {
                            PlaybackEvent::ClipRepetitionEnd { clip_id, clip_repetition }
                        },
                        AnimationIteratorEvent::ClipEnd { clip_id } => PlaybackEvent::ClipEnd { clip_id },
                        AnimationIteratorEvent::AnimationRepetitionEnd { animation_repetition } => {
                            PlaybackEvent::AnimationRepetitionEnd { animation_repetition }
                        },
                    };
                    r.push(e);
                    proof {
                        assert(frame.events@.take(k + 1) =~= frame.events@.take(k as int).push(frame.events@[k as int]));
                        assert(r@ =~= frame.events@.take(k + 1).map_values(
                            |e: AnimationIteratorEvent| playback_event(e),
                        ));
                    }
                    k = k + 1;
                }
                proof {
                    assert(frame.events@.take(frame.events.len() as int) =~= frame.events@);
                }
                r
            },
            PlaybackStep::End(e) => {
                let r = vec![
                    PlaybackEvent::ClipRepetitionEnd { clip_id: e.clip_id, clip_repetition: e.clip_repetition },
                    PlaybackEvent::ClipEnd { clip_id: e.clip_id },
                    PlaybackEvent::AnimationRepetitionEnd { animation_repetition: e.animation_repetition },
                    PlaybackEvent::AnimationEnd,
                ];
                proof {
                    assert(r@ =~= step_events(self@));
                }
                r
            },
        }
    }
}

/// The views of a sequence of steps.
pub open spec fn step_views(steps: Seq<PlaybackStep>) -> Seq<PlaybackStepView> {
    steps.map_values(|s: PlaybackStep| s@)
}

/// The playback state of an instance, as data: the progress of the next frame, the
/// repetition-end frame still to report, the frame shown and the time accumulated on it
/// (in nanoseconds).
pub struct PlayState {
    pub next: AnimationProgress,
    pub just_ended: Option<CacheFrameView>,
    pub current: Option<(IteratorFrameView, AnimationProgress)>,
    pub accumulated: int,
}

/// Whether a step is due in state `s`: a frame is shown and more time has accumulated
/// than it lasts.
pub open spec fn step_due(s: PlayState) -> bool {
    match s.current {
        Some((f, _)) => s.accumulated > f.duration * NANOS_PER_MILLI,
        None => false,
    }
}

/// The step taken from state `s` (where a step is due) and the state it leads to: the
/// time of the frame shown is consumed, and the next frame is shown or, past the last
/// frame, the end of the animation is reported.
pub open spec fn step_after(cache: AnimationCache, s: PlayState) -> (PlaybackStepView, PlayState) {
    let f = match s.current {
        Some((f, _)) => f,
        None => arbitrary(),
    };
    let shown = played_frame(cache, s.next, s.just_ended);
    let t = PlayState {
        next: progress_after(cache, s.next),
        just_ended: just_ended_after(cache, s.next, s.just_ended),
        current: shown,
        accumulated: s.accumulated - f.duration * NANOS_PER_MILLI,
    };
    let step = match shown {
        Some((g, q)) => PlaybackStepView::Play(g, q),
        None => PlaybackStepView::End(
            PlaybackEnd {
                clip_id: f.clip_id,
                clip_repetition: f.clip_repetition,
                animation_repetition: f.animation_repetition,
            },
        ),
    };
    (step, t)
}

/// Whether playback goes on from state `s`: a step is due, the next frame can be played
/// without overflowing the repetition counter and, where the frame shown lasts 0 ms, the
/// frames that follow reach, within [run_budget] plays, a frame that lasts some time or the
/// end of the animation (so that a looping animation whose repetitions last 0 ms stops on
/// its frame instead of playing forever).
pub open spec fn goes_on(cache: AnimationCache, s: PlayState) -> bool {
    &&& step_due(s)
    &&& match s.current {
        Some((f, _)) => f.duration > 0 || zero_run(cache, s.next, run_budget(cache)) is Some,
        None => false,
    }
    &&& can_play(cache, s.next)
}

/// How many steps remain, from state `s` whose frame lasts 0 ms, until a frame that lasts
/// some time is shown or the end is reported (0 when the frame shown lasts some time).
pub open spec fn pending_zero_steps(cache: AnimationCache, s: PlayState) -> nat {
    match s.current {
        Some((f, _)) => if f.duration == 0 {
            match zero_run(cache, s.next, run_budget(cache)) {
                Some(k) => k,
                None => 0,
            }
        } else {
            0
        },
        None => 0,
    }
}

/// Each step makes progress: it consumes the time of a frame that lasts some time, or it
/// brings closer, without consuming time, the next frame that does (or the end).
pub proof fn lemma_step_progresses(cache: AnimationCache, s: PlayState)
    requires
        goes_on(cache, s),
    ensures
        ({
            let t = step_after(cache, s).1;
            &&& t.accumulated >= 0
            &&& t.accumulated < s.accumulated || (t.accumulated == s.accumulated
                && pending_zero_steps(cache, t) < pending_zero_steps(cache, s))
        }),
{
    let f = match s.current {
        Some((f, _)) => f,
        None => arbitrary(),
    };
    if f.duration == 0 {
        let b = run_budget(cache);
        let q = progress_after(cache, s.next);
        if let Some((g, _)) = played_frame(cache, s.next, None) {
            if g.duration == 0 {
                lemma_zero_run_budget(cache, q, (b - 1) as nat, b);
            }
        }
    }
}

/// The steps taken from state `s` as long as playback goes on, and the state reached.
pub open spec fn steps_from(cache: AnimationCache, s: PlayState) -> (Seq<PlaybackStepView>, PlayState)
    decreases s.accumulated, pending_zero_steps(cache, s),
{
    if goes_on(cache, s) {
        proof {
            lemma_step_progresses(cache, s);
        }
        let (step, t) = step_after(cache, s);
        let (rest, end) = steps_from(cache, t);
        (seq![step] + rest, end)
    } else {
        (Seq::empty(), s)
    }
}

/// The frame an instance currently shows, as data.
pub open spec fn current_view(current: Option<(IteratorFrame, AnimationProgress)>) -> Option<
    (IteratorFrameView, AnimationProgress),
> {
    match current {
        Some((f, p)) => Some((f@, p)),
        None => None,
    }
}

/// The progress playback starts from when `requested` is asked for: `requested` if it
/// designates a frame and a repetition of the animation, the start otherwise.
pub open spec fn start_progress(cache: AnimationCache, requested: AnimationProgress) -> AnimationProgress {
    let zero = AnimationProgress { frame: 0, repetition: 0 };
    if requested == zero || !valid_progress(cache, requested) {
        zero
    } else {
        requested
    }
}

/// Starting to play `cache` from `requested`: the state reached, the frame shown and the
/// progress to report (that of the frame shown, else the start if `requested` was refused,
/// else `requested`).
pub open spec fn start_outcome(cache: AnimationCache, requested: AnimationProgress) -> (
    PlayState,
    Option<(IteratorFrameView, AnimationProgress)>,
    AnimationProgress,
) {
    let zero = AnimationProgress { frame: 0, repetition: 0 };
    let accepted = requested == zero || valid_progress(cache, requested);
    let from = start_progress(cache, requested);
    let shown = played_frame(cache, from, None);
    (
        PlayState {
            next: progress_after(cache, from),
            just_ended: just_ended_after(cache, from, None),
            current: shown,
            accumulated: 0,
        },
        shown,
        match shown {
            Some((_, p)) => p,
            None => if accepted { requested } else { zero },
        },
    )
}

/// Moving playback in state `s` to `requested`: nothing changes if the frame shown has that
/// progress or if no frame is shown; if `requested` designates a frame of the animation,
/// playback goes there (and the frame is shown, with time starting again from it);
/// otherwise the progress to report is that of the frame shown.
pub open spec fn reconcile_outcome(cache: AnimationCache, s: PlayState, requested: AnimationProgress) -> (
    PlayState,
    Option<(IteratorFrameView, AnimationProgress)>,
    AnimationProgress,
) {
    match s.current {
        Some((_, p)) => if p == requested {
            (s, None, requested)
        } else if valid_progress(cache, requested) {
            let shown = played_frame(cache, requested, None);
            let moved = PlayState {
                next: progress_after(cache, requested),
                just_ended: just_ended_after(cache, requested, None),
                ..s
            };
            match shown {
                Some((_, q)) => (PlayState { current: shown, accumulated: 0, ..moved }, shown, q),
                None => (moved, None, requested),
            }
        } else {
            (s, None, p)
        },
        None => (s, None, requested),
    }
}

/// The steps that show a frame, if any.
pub open spec fn shown_steps(shown: Option<(IteratorFrameView, AnimationProgress)>) -> Seq<PlaybackStepView> {
    match shown {
        Some((f, p)) => seq![PlaybackStepView::Play(f, p)],
        None => Seq::empty(),
    }
}

/// Whether synchronising `current` with a request starts a new instance: there is none, the
/// animation was switched, or the animation is over and the request is back at the first frame.
pub open spec fn restarts(current: Option<AnimationInstance>, switched: bool, requested: AnimationProgress) -> bool {
    match current {
        Some(i) => switched || (i.current() is None && requested.frame == 0),
        None => true,
    }
}

/// The cache that synchronising `current` with a request plays: `cache` when a new instance
/// starts, the instance's own otherwise.
pub open spec fn sync_cache(
    current: Option<AnimationInstance>,
    cache: AnimationCache,
    switched: bool,
    requested: AnimationProgress,
) -> AnimationCache {
    match current {
        Some(i) => if restarts(current, switched, requested) { cache } else { i.cache() },
        None => cache,
    }
}

/// Synchronising `current` with a request does not overflow the repetition counter: if the
/// request designates a frame of the cache played, playing from it does not overflow.
pub open spec fn sync_ready(
    current: Option<AnimationInstance>,
    cache: AnimationCache,
    switched: bool,
    requested: AnimationProgress,
) -> bool {
    let played = sync_cache(current, cache, switched, requested);
    valid_progress(played, requested) ==> can_play(played, requested)
}

/// Synchronising `current` with a request (see [AnimationInstance::sync]): the cache played,
/// the state reached, the steps showing frames and the progress to report.
pub open spec fn sync_outcome(
    current: Option<AnimationInstance>,
    cache: AnimationCache,
    switched: bool,
    requested: AnimationProgress,
) -> (AnimationCache, PlayState, Seq<PlaybackStepView>, AnimationProgress) {
    let restart = restarts(current, switched, requested);
    let (played, s1, shown1, p1) = match current {
        Some(i) => if restart {
            let (s, f, p) = start_outcome(cache, requested);
            (cache, s, f, p)
        } else {
            (i.cache(), i.state(), None, requested)
        },
        None => {
            let (s, f, p) = start_outcome(cache, requested);
            (cache, s, f, p)
        },
    };
    let (s2, shown2, p2) = reconcile_outcome(played, s1, p1);
    (played, s2, shown_steps(shown1) + shown_steps(shown2), p2)
}

/// An instance of an animation being played for one entity.
pub struct AnimationInstance {
    iterator: AnimationIterator,
    /// The frame currently shown, with its progress; None once the animation is over
    current_frame: Option<(IteratorFrame, AnimationProgress)>,
    /// Time accumulated since the current frame was shown, in nanoseconds
    accumulated_nanos: u128,
}

impl AnimationInstance {
    /// The cache being played.
    pub closed spec fn cache(&self) -> AnimationCache {
        self.iterator.cache()
    }

    /// The progress of the next frame to play.
    pub closed spec fn next_progress(&self) -> AnimationProgress {
        self.iterator.progress()
    }

    /// The last frame of the repetition that just ended, if its end events are still to report.
    pub closed spec fn just_ended(&self) -> Option<CacheFrameView> {
        self.iterator.just_ended()
    }

    /// The frame currently shown, with its progress.
    pub closed spec fn current(&self) -> Option<(IteratorFrameView, AnimationProgress)> {
        current_view(self.current_frame)
    }

    /// Time accumulated since the current frame was shown, in nanoseconds.
    pub closed spec fn accumulated(&self) -> u128 {
        self.accumulated_nanos
    }

    /// Whether the next frame can be played without overflowing the repetition counter.
    pub open spec fn can_advance(&self) -> bool {
        can_play(self.cache(), self.next_progress())
    }

    /// Time accumulated since the current frame was shown, in nanoseconds.
    pub fn accumulated_nanos(&self) -> (r: u128)
        ensures
            r == self.accumulated(),
    {
        self.accumulated_nanos
    }

    /// Starts playing `cache`, from `requested` if it designates a frame of the animation and
    /// from the start otherwise, and shows the first frame.
    ///
    /// Returns the instance, the frame shown (if the animation has any) and the progress to
    /// report: that of the frame shown, else the start if `requested` was refused, else `requested`.
    pub fn start(cache: Arc<AnimationCache>, requested: AnimationProgress) -> (r: (
        AnimationInstance,
        Option<(IteratorFrame, AnimationProgress)>,
        AnimationProgress,
    ))
        requires
            ({
                let from = if requested == (AnimationProgress { frame: 0, repetition: 0 })
                    || !crate::animator::iterator::valid_progress(*cache, requested) {
                    AnimationProgress { frame: 0, repetition: 0 }
                } else {
                    requested
                };
                can_play(*cache, from)
            }),
        ensures
            ({
                let zero = AnimationProgress { frame: 0, repetition: 0 };
                let accepted = requested == zero || crate::animator::iterator::valid_progress(
                    *cache,
                    requested,
                );
                let from = if requested == zero || !accepted { zero } else { requested };
                let shown = played_frame(*cache, from, None);
                &&& r.0.cache() == *cache
                &&& r.0.next_progress() == progress_after(*cache, from)
                &&& r.0.just_ended() == just_ended_after(*cache, from, None)
                &&& r.0.current() == shown
                &&& r.0.accumulated() == 0
                &&& current_view(r.1) == shown
                &&& r.2 == match shown {
                    Some((_, p)) => p,
                    None => if accepted { requested } else { zero },
                }
            }),
    {
        let mut iterator = AnimationIterator::new(cache);
        let mut progress = requested;
        let zero = AnimationProgress { frame: 0, repetition: 0 };
        if requested != zero {
            if !iterator.to(requested) {
                progress = zero;
            }
        }
        let first_frame = iterator.next();
        let shown = match &first_frame {
            Some((frame, p)) => {
                progress = *p;
                Some((frame.duplicate(), *p))
            },
            None => None,
        };
        let instance = AnimationInstance {
            iterator,
            current_frame: first_frame,
            accumulated_nanos: 0,
        };
        (instance, shown, progress)
    }

    /// Starts an instance and turns the frame shown into steps.
    fn begin(cache: Arc<AnimationCache>, requested: AnimationProgress) -> (r: (
        AnimationInstance,
        Vec<PlaybackStep>,
        AnimationProgress,
    ))
        requires
            valid_progress(*cache, requested) ==> can_play(*cache, requested),
        ensures
            r.0.cache() == *cache,
            (r.0.state(), step_views(r.1@), r.2) == ({
                let (s, f, p) = start_outcome(*cache, requested);
                (s, shown_steps(f), p)
            }),
    {
        let (instance, shown, progress) = AnimationInstance::start(cache, requested);
        let mut steps: Vec<PlaybackStep> = Vec::new();
        match shown {
            Some((frame, p)) => {
                steps.push(PlaybackStep::Play(frame, p));
            },
            None => {},
        }
        proof {
            assert(step_views(steps@) =~= shown_steps(start_outcome(*cache, requested).1));
        }
        (instance, steps, progress)
    }

    /// The cache the instance plays.
    pub fn played_cache(&self) -> (r: &AnimationCache)
        ensures
            *r == self.cache(),
    {
        self.iterator.played_cache()
    }

    /// Whether synchronising `current` with a request may proceed (see [sync_ready]); it may
    /// not when playing would overflow the repetition counter.
    pub fn sync_is_ready(
        current: &Option<AnimationInstance>,
        cache: &AnimationCache,
        switched: bool,
        requested: AnimationProgress,
    ) -> (r: bool)
        ensures
            r == sync_ready(*current, *cache, switched, requested),
    {
        let played = match current {
            Some(i) => if switched || i.needs_restart(requested) {
                cache
            } else {
                i.played_cache()
            },
            None => cache,
        };
        !progress_is_valid(played, requested) || progress_is_playable(played, requested)
    }

    /// Synchronises an entity's playback with what it requests, without advancing time: a new
    /// instance plays `cache` from `requested` if there is no instance, if the animation was
    /// `switched`, or if it is over and `requested` is back at the first frame; then playback
    /// moves to the requested progress (see [sync_outcome]).
    ///
    /// Returns the instance, the steps showing frames (in order) and the progress to report.
    pub fn sync(
        current: Option<AnimationInstance>,
        cache: Arc<AnimationCache>,
        switched: bool,
        requested: AnimationProgress,
    ) -> (r: (AnimationInstance, Vec<PlaybackStep>, AnimationProgress))
        requires
            sync_ready(current, *cache, switched, requested),
        ensures
            ({
                let (played, s, steps, p) = sync_outcome(current, *cache, switched, requested);
                &&& r.0.cache() == played
                &&& r.0.state() == s
                &&& step_views(r.1@) == steps
                &&& r.2 == p
            }),
    {
        let restart = match &current {
            Some(i) => switched || i.needs_restart(requested),
            None => true,
        };
        let (mut instance, mut steps, progress) = match current {
            Some(i) => if restart {
                AnimationInstance::begin(cache, requested)
            } else {
                (i, Vec::new(), requested)
            },
            None => AnimationInstance::begin(cache, requested),
        };
        let ghost before = instance.state();
        let ghost first = step_views(steps@);
        let (shown, reported) = instance.reconcile(progress);
        match shown {
            Some((frame, p)) => {
                steps.push(PlaybackStep::Play(frame, p));
            },
            None => {},
        }
        proof {
            assert(step_views(steps@) =~= first + shown_steps(reconcile_outcome(instance.cache(), before, progress).1));
        }
        (instance, steps, reported)
    }

    /// Whether the instance should be restarted: the animation is over and the requested
    /// progress is back at the first frame.
    pub fn needs_restart(&self, requested: AnimationProgress) -> (r: bool)
        ensures
            r == (self.current() is None && requested.frame == 0),
    {
        self.current_frame.is_none() && requested.frame == 0
    }

    /// Moves playback to `requested` when it differs from the progress of the frame shown.
    ///
    /// If `requested` designates a frame of the animation, that frame is shown (and time
    /// starts again from it); otherwise the progress to report is that of the frame shown.
    /// Returns the frame shown, if any, and the progress to report.
    pub fn reconcile(&mut self, requested: AnimationProgress) -> (r: (
        Option<(IteratorFrame, AnimationProgress)>,
        AnimationProgress,
    ))
        requires
            crate::animator::iterator::valid_progress(old(self).cache(), requested) ==> can_play(
                old(self).cache(),
                requested,
            ),
        ensures
            final(self).cache() == old(self).cache(),
            ({
                let current = old(self).current();
                let unchanged = {
                    &&& final(self).next_progress() == old(self).next_progress()
                    &&& final(self).just_ended() == old(self).just_ended()
                    &&& final(self).current() == current
                    &&& final(self).accumulated() == old(self).accumulated()
                };
                match current {
                    Some((_, p)) => if p == requested {
                        &&& r.0 is None
                        &&& r.1 == requested
                        &&& unchanged
                    } else if crate::animator::iterator::valid_progress(old(self).cache(), requested) {
                        let shown = played_frame(old(self).cache(), requested, None);
                        &&& final(self).next_progress() == progress_after(old(self).cache(), requested)
                        &&& final(self).just_ended() == just_ended_after(old(self).cache(), requested, None)
                        &&& current_view(r.0) == shown
                        &&& match shown {
                            Some((_, q)) => {
                                &&& final(self).current() == shown
                                &&& final(self).accumulated() == 0
                                &&& r.1 == q
                            },
                            None => {
                                &&& final(self).current() == current
                                &&& final(self).accumulated() == old(self).accumulated()
                                &&& r.1 == requested
                            },
                        }
                    } else {
                        &&& r.0 is None
                        &&& r.1 == p
                        &&& unchanged
                    },
                    None => {
                        &&& r.0 is None
                        &&& r.1 == requested
                        &&& unchanged
                    },
                }
            }),
    {
        let shown_progress = match &self.current_frame {
            Some((_, p)) => Some(*p),
            None => None,
        };
        match shown_progress {
            Some(p) => {
                if p == requested {
                    return (None, requested);
                }
                if self.iterator.to(requested) {
                    let played = self.iterator.next();
                    match played {
                        Some((frame, q)) => {
                            let shown = Some((frame.duplicate(), q));
                            self.current_frame = Some((frame, q));
                            self.accumulated_nanos = 0;
                            (shown, q)
                        },
                        None => (None, requested),
                    }
                } else {
                    (None, p)
                }
            },
            None => (None, requested),
        }
    }

    /// The playback state of the instance.
    pub closed spec fn state(&self) -> PlayState {
        PlayState {
            next: self.iterator.progress(),
            just_ended: self.iterator.just_ended(),
            current: current_view(self.current_frame),
            accumulated: self.accumulated_nanos as int,
        }
    }

    /// One step of playback, if one is due (see [step_after]).
    fn tick(&mut self) -> (r: Option<PlaybackStep>)
        requires
            old(self).can_advance(),
        ensures
            final(self).cache() == old(self).cache(),
            step_due(old(self).state()) ==> {
                let (step, t) = step_after(old(self).cache(), old(self).state());
                &&& r matches Some(x) && x@ == step
                &&& final(self).state() == t
            },
            !step_due(old(self).state()) ==> r is None && final(self).state() == old(self).state(),
    {
        let (duration_nanos, end) = match &self.current_frame {
            Some((f, _)) => (
                f.duration as u128 * NANOS_PER_MILLI,
                PlaybackEnd {
                    clip_id: f.clip_id,
                    clip_repetition: f.clip_repetition,
                    animation_repetition: f.animation_repetition,
                },
            ),
            None => {
                return None;
            },
        };
        if self.accumulated_nanos <= duration_nanos {
            return None;
        }
        self.accumulated_nanos = self.accumulated_nanos - duration_nanos;
        let played = self.iterator.next();
        match played {
            Some((frame, progress)) => {
                let shown = frame.duplicate();
                self.current_frame = Some((frame, progress));
                Some(PlaybackStep::Play(shown, progress))
            },
            None => {
                self.current_frame = None;
                Some(PlaybackStep::End(end))
            },
        }
    }

    /// Advances playback by `elapsed_nanos` (already scaled by the speed factor): the time
    /// is added to that of the frame shown, then steps are taken as long as playback goes
    /// on (see [steps_from]). Returns the steps taken, in order.
    pub fn advance(&mut self, elapsed_nanos: u128) -> (steps: Vec<PlaybackStep>)
        requires
            old(self).accumulated() + elapsed_nanos <= MAX_TIME_NANOS,
        ensures
            final(self).cache() == old(self).cache(),
            ({
                let s0 = PlayState { accumulated: old(self).accumulated() + elapsed_nanos, ..old(self).state() };
                &&& step_views(steps@) == steps_from(old(self).cache(), s0).0
                &&& final(self).state() == steps_from(old(self).cache(), s0).1
            }),
    {
        let ghost cache = self.cache();
        self.accumulated_nanos = self.accumulated_nanos + elapsed_nanos;
        let ghost s0 = self.state();
        let mut steps: Vec<PlaybackStep> = Vec::new();
        loop
            invariant
                self.cache() == cache,
                step_views(steps@) + steps_from(cache, self.state()).0 == steps_from(cache, s0).0,
                steps_from(cache, self.state()).1 == steps_from(cache, s0).1,
            ensures
                self.cache() == cache,
                step_views(steps@) == steps_from(cache, s0).0,
                self.state() == steps_from(cache, s0).1,
            decreases self.state().accumulated, pending_zero_steps(cache, self.state()),
        {
            let due = match &self.current_frame {
                Some((f, _)) => self.accumulated_nanos > f.duration as u128 * NANOS_PER_MILLI && (f.duration > 0
                    || zero_run_ends(self.iterator.played_cache(), self.iterator.next_progress())),
                None => false,
            };
            if !due || !self.iterator.can_play_next() {
                proof {
                    assert(!goes_on(cache, self.state()));
                    assert(step_views(steps@) + Seq::<PlaybackStepView>::empty() =~= step_views(steps@));
                }
                break;
            }
            let ghost before = self.state();
            let ghost old_steps = steps@;
            proof {
                assert(goes_on(cache, before));
                lemma_step_progresses(cache, before);
            }
            let r = self.tick();
            match r {
                Some(step) => {
                    steps.push(step);
                    proof {
                        let (expected, t) = step_after(cache, before);
                        assert(step_views(steps@) =~= step_views(old_steps).push(expected));
                        assert(steps_from(cache, before).0 =~= seq![expected] + steps_from(cache, t).0);
                        assert(step_views(steps@) + steps_from(cache, self.state()).0 =~= step_views(old_steps) + steps_from(cache, before).0);
                    }
                },
                None => {
                    break;
                },
            }
        }
        steps
    }
}

} // verus!

verus! {

/// State `s` with `extra` more nanoseconds accumulated on the frame shown.
pub open spec fn with_more_time(s: PlayState, extra: int) -> PlayState {
    PlayState { accumulated: s.accumulated + extra, ..s }
}

/// Playback does not depend on how time is split into updates: advancing by `extra` more
/// time takes the steps taken without it, then the steps taken from where they led with
/// `extra` added.
pub proof fn lemma_time_splits(cache: AnimationCache, s: PlayState, extra: int)
    requires
        extra >= 0,
    ensures
        ({
            let (first, t) = steps_from(cache, s);
            let (rest, u) = steps_from(cache, with_more_time(t, extra));
            steps_from(cache, with_more_time(s, extra)) == (first + rest, u)
        }),
    decreases s.accumulated, pending_zero_steps(cache, s),
{
    let (first, t) = steps_from(cache, s);
    let (rest, u) = steps_from(cache, with_more_time(t, extra));
    let s2 = with_more_time(s, extra);
    if goes_on(cache, s) {
        let (step, t1) = step_after(cache, s);
        let (step2, t2) = step_after(cache, s2);
        assert(goes_on(cache, s2));
        lemma_step_progresses(cache, s);
        assert(step2 == step);
        assert(t2 == with_more_time(t1, extra));
        lemma_time_splits(cache, t1, extra);
        let (tail, _) = steps_from(cache, t1);
        assert(first == seq![step] + tail);
        assert(seq![step] + (tail + rest) =~= (seq![step] + tail) + rest);
    } else {
        assert(t == s);
        assert(first =~= Seq::<PlaybackStepView>::empty());
        assert(first + rest =~= rest);
    }
}

} // verus!

verus! {

/// Advancing settles: from the state that advancing reaches, no further step is taken until
/// more time passes (so an update with no elapsed time, as when paused, plays nothing).
pub proof fn lemma_advance_settles(cache: AnimationCache, s: PlayState)
    ensures
        ({
            let t = steps_from(cache, s).1;
            steps_from(cache, t) == (Seq::<PlaybackStepView>::empty(), t)
        }),
{
    lemma_time_splits(cache, s, 0);
    assert(with_more_time(s, 0) == s);
    let (first, t) = steps_from(cache, s);
    assert(with_more_time(t, 0) == t);
    let (rest, u) = steps_from(cache, t);
    assert((first + rest).len() == first.len());
    assert(rest =~= Seq::<PlaybackStepView>::empty());
}

/// After a synchronisation, the progress reported is that of the frame shown (when a frame is
/// shown), so synchronising again with that progress shows nothing and changes nothing.
pub proof fn lemma_sync_settles(
    current: Option<AnimationInstance>,
    cache: AnimationCache,
    switched: bool,
    requested: AnimationProgress,
)
    requires
        cache_well_formed(cache),
        current matches Some(i) ==> cache_well_formed(i.cache()),
    ensures
        ({
            let (played, s, _, p) = sync_outcome(current, cache, switched, requested);
            &&& s.current matches Some((_, q)) ==> p == q
            &&& s.current is Some ==> reconcile_outcome(played, s, p) == (s, None::<(IteratorFrameView, AnimationProgress)>, p)
        }),
{
    let restart = restarts(current, switched, requested);
    let (played, s1, shown1, p1) = match current {
        Some(i) => if restart {
            let (s, f, p) = start_outcome(cache, requested);
            (cache, s, f, p)
        } else {
            (i.cache(), i.state(), None, requested)
        },
        None => {
            let (s, f, p) = start_outcome(cache, requested);
            (cache, s, f, p)
        },
    };
    assert(cache_well_formed(played));
    if valid_progress(played, p1) {
        assert(frames_for(played, p1.repetition).len() == played.frames.len());
    }
}

/// The playback state of an instance gathers what its other views give: the progress of the
/// next frame, the repetition-end frame still to report, the frame shown and the time
/// accumulated on it.
pub proof fn lemma_state_parts(i: AnimationInstance)
    ensures
        i.state().next == i.next_progress(),
        i.state().just_ended == i.just_ended(),
        i.state().current == i.current(),
        i.state().accumulated == i.accumulated() as int,
{
}

/// The end of an animation is final: when the step taken reports the end, the four end events
/// are reported (the end of the last clip repetition, of the last clip, of the last animation
/// repetition, of the animation), no frame is shown any more, and however much more time
/// passes, no further step is taken.
pub proof fn lemma_end_is_final(cache: AnimationCache, s: PlayState, extra: int)
    requires
        goes_on(cache, s),
        step_after(cache, s).0 is End,
        extra >= 0,
    ensures
        ({
            let (step, t) = step_after(cache, s);
            let e = step->End_0;
            &&& step_events(step) == seq![
                PlaybackEvent::ClipRepetitionEnd { clip_id: e.clip_id, clip_repetition: e.clip_repetition },
                PlaybackEvent::ClipEnd { clip_id: e.clip_id },
                PlaybackEvent::AnimationRepetitionEnd { animation_repetition: e.animation_repetition },
                PlaybackEvent::AnimationEnd,
            ]
            &&& t.current is None
            &&& steps_from(cache, with_more_time(t, extra)) == (Seq::<PlaybackStepView>::empty(), with_more_time(t, extra))
        }),
{
}

/// Frames that last 0 ms never stop an animation played a finite number of times: as in
/// every animation, a step is taken whenever more time has accumulated than the frame shown
/// lasts and the next frame can be played, whether the frame shown lasts 0 ms or not.
pub proof fn lemma_finite_animation_never_stalls(cache: AnimationCache, s: PlayState)
    requires
        cache_well_formed(cache),
        cache.repetitions is Some,
        valid_progress(cache, s.next) || s.next.frame >= cache.frames.len(),
    ensures
        goes_on(cache, s) == (step_due(s) && can_play(cache, s.next)),
{
    lemma_finite_run_ends(cache, s.next);
}

/// Once no frame is shown (the animation is over, or nothing was ever shown), no step is
/// taken however much time passes, so every later update reports nothing and shows nothing new.
pub proof fn lemma_ended_plays_nothing(cache: AnimationCache, s: PlayState, extra: int)
    requires
        s.current is None,
    ensures
        steps_from(cache, with_more_time(s, extra)) == (Seq::<PlaybackStepView>::empty(), with_more_time(s, extra)),
{
}

/// A looping animation stops with time left to play only on a frame that lasts 0 ms, and only
/// when the next [run_budget] plays (more than three repetitions' worth) would all show frames
/// that last 0 ms: when whole repetitions of it last 0 ms (as long as the repetition counter
/// stays below its limit).
pub proof fn lemma_loop_stalls_only_on_zero_repetitions(cache: AnimationCache, s: PlayState)
    requires
        cache_well_formed(cache),
        cache.repetitions is None,
        valid_progress(cache, s.next),
        s.next.repetition + run_budget(cache) < usize::MAX,
        step_due(s),
        !goes_on(cache, s),
    ensures
        shows_zero_ms_frame(s.current),
        forall|k: nat| #![trigger progress_after_plays(cache, s.next, k)]
            k < run_budget(cache) ==> shows_zero_ms_frame(played_frame(cache, progress_after_plays(cache, s.next, k), None)),
{
    lemma_loop_plays_forever(cache, s.next, 0, None);
    assert(progress_after_plays(cache, s.next, 0) == s.next);
    lemma_loop_run_fails_only_on_zero_repetitions(cache, s.next);
}

/// When synchronising starts over: if the animation was switched, or if the instance shows no
/// frame (its animation is over) and the request is back at the first frame (as a reset asks),
/// synchronising gives exactly what it gives with no instance at all, a fresh start of `cache`
/// from the request; otherwise the instance keeps its own cache and state, only moved to the
/// request (and `cache` is ignored).
pub proof fn lemma_sync_starts_over_exactly_when(
    i: AnimationInstance,
    cache: AnimationCache,
    switched: bool,
    requested: AnimationProgress,
)
    ensures
        switched || (i.current() is None && requested.frame == 0) ==> {
            &&& sync_outcome(Some(i), cache, switched, requested) == sync_outcome(None, cache, switched, requested)
            &&& sync_ready(Some(i), cache, switched, requested) == sync_ready(None, cache, switched, requested)
        },
        !(switched || (i.current() is None && requested.frame == 0)) ==> {
            let (s, shown, p) = reconcile_outcome(i.cache(), i.state(), requested);
            &&& sync_outcome(Some(i), cache, switched, requested) == (i.cache(), s, shown_steps(shown), p)
            &&& sync_ready(Some(i), cache, switched, requested) == (valid_progress(i.cache(), requested)
                ==> can_play(i.cache(), requested))
        },
{
    assert(shown_steps(None) =~= Seq::<PlaybackStepView>::empty());
    let (s, shown, p) = reconcile_outcome(i.cache(), i.state(), requested);
    assert(shown_steps(None) + shown_steps(shown) =~= shown_steps(shown));
}

} // verus!
