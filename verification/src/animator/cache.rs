use vstd::prelude::*;

use crate::animation::{Animation, AnimationDirection, AnimationDuration, AnimationRepeat};
use crate::clip::{markers_of, Clip, ClipId};
use crate::easing::Easing;
use crate::events::Marker;

verus! {

/// An event attached to a cached frame, emitted when that frame is played.
///
/// The iterator adds the animation repetition to them; the end-of-repetition and
/// end-of-animation events that cannot be cached are added at playback time.
#[derive(Debug, Clone, Copy, PartialEq, Eq, Hash, Structural)]
pub enum AnimationCacheMessage {
    MarkerHit { marker_id: Marker, clip_id: ClipId, clip_repetition: usize },
    ClipRepetitionEnd { clip_id: ClipId, clip_repetition: usize },
    ClipEnd { clip_id: ClipId },
}

/// A pre-computed frame of animation, ready to be played back.
pub struct CacheFrame {
    pub atlas_index: usize,
    /// How long the frame is displayed, in milliseconds.
    pub duration: u32,
    pub clip_id: ClipId,
    pub clip_repetition: usize,
    pub messages: Vec<AnimationCacheMessage>,
}

/// The mathematical content of a [CacheFrame].
pub struct CacheFrameView {
    pub atlas_index: usize,
    pub duration: u32,
    pub clip_id: ClipId,
    pub clip_repetition: usize,
    pub messages: Seq<AnimationCacheMessage>,
}

impl View for CacheFrame {
    type V = CacheFrameView;

    open spec fn view(&self) -> CacheFrameView {
        CacheFrameView {
            atlas_index: self.atlas_index,
            duration: self.duration,
            clip_id: self.clip_id,
            clip_repetition: self.clip_repetition,
            messages: self.messages@,
        }
    }
}

/// The contents of a sequence of cached frames.
pub open spec fn frame_views(frames: Seq<CacheFrame>) -> Seq<CacheFrameView> {
    frames.map_values(|f: CacheFrame| f@)
}

impl CacheFrame {
    /// A copy of this frame.
    pub fn duplicate(&self) -> (r: CacheFrame)
        ensures
            r@ == self@,
    {
        CacheFrame {
            atlas_index: self.atlas_index,
            duration: self.duration,
            clip_id: self.clip_id,
            clip_repetition: self.clip_repetition,
            messages: self.messages.clone(),
        }
    }
}

/// The pre-computed frames of an animation, so that playing it back is a matter of
/// iterating over them without re-evaluating the animation parameters.
pub struct AnimationCache {
    /// All the frames of one repetition of the animation
    pub frames: Vec<CacheFrame>,
    /// Frames for odd repetitions when the direction is PingPong; None for other directions.
    pub frames_pong: Option<Vec<CacheFrame>>,
    /// The total number of repetitions to play; None if looping indefinitely.
    pub repetitions: Option<usize>,
    /// The direction of the animation (after the first repetition, PingPong skips the first frame).
    pub animation_direction: AnimationDirection,
}

// ---------------------------------------------------------------------------------------------
// Clip parameters
// ---------------------------------------------------------------------------------------------

/// The number of repetitions of a clip (1 if unset).
pub open spec fn clip_repetitions(c: Clip) -> usize {
    match c.repetitions {
        Some(n) => n,
        None => 1,
    }
}

/// The duration of a clip (100 ms per frame if unset).
pub open spec fn clip_duration(c: Clip) -> AnimationDuration {
    match c.duration {
        Some(d) => d,
        None => AnimationDuration::PerFrame(100),
    }
}

/// The direction of a clip (forwards if unset).
pub open spec fn clip_direction(c: Clip) -> AnimationDirection {
    match c.direction {
        Some(d) => d,
        None => AnimationDirection::Forwards,
    }
}

/// The easing of a clip (linear if unset).
pub open spec fn clip_easing(c: Clip) -> Easing {
    match c.easing {
        Some(e) => e,
        None => Easing::Linear,
    }
}

/// How many frames a clip shows over all its repetitions (a ping-pong clip shares its turning frames),
/// counts taken as `u32`.
pub open spec fn frame_count_with_repetitions(c: Clip) -> int {
    let len = c.atlas_indices.len();
    let reps = clip_repetitions(c);
    match clip_direction(c) {
        AnimationDirection::PingPong => {
            let turns: usize = if len == 0 { 0 } else { (len - 1) as usize };
            (turns as u32) * (reps as u32) + 1
        },
        _ => (len as u32) * (reps as u32),
    }
}

/// The duration of a clip over all its repetitions, in milliseconds (a per-repetition
/// duration counts once for each repetition).
pub open spec fn duration_with_repetitions(c: Clip) -> int {
    match clip_duration(c) {
        AnimationDuration::PerFrame(d) => d * frame_count_with_repetitions(c),
        AnimationDuration::PerRepetition(r) => r * clip_repetitions(c),
    }
}

/// The clip's durations can be computed in `u32` milliseconds without overflow.
pub open spec fn clip_fits(c: Clip) -> bool {
    &&& c.atlas_indices.len() <= u32::MAX
    &&& frame_count_with_repetitions(c) <= u32::MAX
    &&& duration_with_repetitions(c) <= u32::MAX
}

/// Whether a clip takes part in playback: it has frames, repetitions and a duration.
pub open spec fn is_played(c: Clip) -> bool {
    &&& c.atlas_indices.len() > 0
    &&& clip_repetitions(c) > 0
    &&& duration_with_repetitions(c) > 0
}

/// The positions (in `clips`) of the clips that take part in playback, in order.
pub open spec fn played_clips(clips: Seq<Clip>) -> Seq<int>
    decreases clips.len(),
{
    if clips.len() == 0 {
        Seq::empty()
    } else {
        let rest = played_clips(clips.drop_last());
        if is_played(clips.last()) {
            rest.push(clips.len() - 1)
        } else {
            rest
        }
    }
}

/// The total duration of one repetition of an animation made of `clips`, in milliseconds:
/// the sum of the durations of the played clips.
pub open spec fn total_duration(clips: Seq<Clip>) -> int
    decreases clips.len(),
{
    if clips.len() == 0 {
        0
    } else {
        let rest = total_duration(clips.drop_last());
        if is_played(clips.last()) {
            rest + duration_with_repetitions(clips.last())
        } else {
            rest
        }
    }
}

/// The durations of an animation can be computed in `u32` milliseconds without overflow.
pub open spec fn animation_fits(a: Animation) -> bool {
    &&& forall|i: int| 0 <= i < a.clips.len() ==> clip_fits(#[trigger] a.clips[i])
    &&& total_duration(a.clips@) <= u32::MAX
}

/// The playback parameters of a clip that takes part in an animation.
pub struct ClipData {
    /// Position of the clip in the animation
    pub index: usize,
    pub id: ClipId,
    pub duration: AnimationDuration,
    pub repetitions: usize,
    pub direction: AnimationDirection,
    pub easing: Easing,
    /// Duration of the clip over all its repetitions, in milliseconds
    pub duration_with_repetitions_ms: u32,
}

impl ClipData {
    /// Whether this data describes the clip at position `index` of `clips`.
    pub open spec fn describes(self, clips: Seq<Clip>) -> bool {
        let c = clips[self.index as int];
        &&& (self.index as int) < clips.len()
        &&& self.id == c.id
        &&& self.duration == clip_duration(c)
        &&& self.repetitions == clip_repetitions(c)
        &&& self.direction == clip_direction(c)
        &&& self.easing == clip_easing(c)
        &&& self.duration_with_repetitions_ms == duration_with_repetitions(c)
    }

    /// The playback parameters of the clip at position `index` of `clips`.
    pub fn new(clips: &Vec<Clip>, index: usize) -> (d: ClipData)
        requires
            index < clips.len(),
            clip_fits(clips[index as int]),
        ensures
            d.index == index,
            d.describes(clips@),
    {
        let clip = &clips[index];
        let duration = match clip.duration {
            Some(d) => d,
            None => AnimationDuration::PerFrame(100),
        };
        let repetitions = match clip.repetitions {
            Some(n) => n,
            None => 1,
        };
        let direction = match clip.direction {
            Some(d) => d,
            None => AnimationDirection::Forwards,
        };
        let easing = match clip.easing {
            Some(e) => e,
            None => Easing::Linear,
        };
        let len = clip.atlas_indices.len();
        let frame_count_with_repetitions: u32 = match direction {
            AnimationDirection::Forwards | AnimationDirection::Backwards => {
                (len as u32) * (repetitions as u32)
            },
            AnimationDirection::PingPong => {
                (len.saturating_sub(1) as u32) * (repetitions as u32) + 1
            },
        };
        let duration_with_repetitions_ms = match duration {
            AnimationDuration::PerFrame(frame_duration) => frame_duration
                * frame_count_with_repetitions,
            AnimationDuration::PerRepetition(repetition_duration) => {
                assert((repetition_duration as int) * (repetitions as int) <= 4294967295 * 18446744073709551615)
                    by (nonlinear_arith)
                    requires repetition_duration <= 4294967295, repetitions <= 18446744073709551615;
                ((repetition_duration as u128) * (repetitions as u128)) as u32
            },
        };
        ClipData {
            index,
            id: clip.id,
            duration,
            repetitions,
            direction,
            easing,
            duration_with_repetitions_ms,
        }
    }
}

/// The playback parameters of the clips of `animation` that take part in playback, in order.
pub fn played_clip_data(animation: &Animation) -> (r: Vec<ClipData>)
    requires
        animation_fits(*animation),
    ensures
        describes_played(r@, animation.clips@),
{
    let mut r: Vec<ClipData> = Vec::new();
    let n = animation.clips.len();
    let mut i: usize = 0;
    while i < n
        invariant
            0 <= i <= n,
            n == animation.clips.len(),
            animation_fits(*animation),
            r.len() == played_clips(animation.clips@.take(i as int)).len(),
            forall|k: int|
                0 <= k < r.len() ==> #[trigger] r[k].index as int == played_clips(animation.clips@.take(i as int))[k]
                    && r[k].describes(animation.clips@),
        decreases n - i,
    {
        let d = ClipData::new(&animation.clips, i);
        proof {
            assert(animation.clips@.take(i + 1).drop_last() =~= animation.clips@.take(i as int));
            assert(animation.clips@.take(i + 1).last() == animation.clips@[i as int]);
        }
        let len = animation.clips[i].atlas_indices.len();
        let ghost prev = played_clips(animation.clips@.take(i as int));
        if len > 0 && d.repetitions > 0 && d.duration_with_repetitions_ms > 0 {
            r.push(d);
            proof {
                assert(played_clips(animation.clips@.take(i + 1)) == prev.push(i as int));
            }
        } else {
            proof {
                assert(played_clips(animation.clips@.take(i + 1)) == prev);
            }
        }
        i = i + 1;
    }
    proof {
        assert(animation.clips@.take(n as int) =~= animation.clips@);
    }
    r
}

/// `data` holds, in order, the playback parameters of the clips of `clips` that take part in playback.
pub open spec fn describes_played(data: Seq<ClipData>, clips: Seq<Clip>) -> bool {
    &&& data.len() == played_clips(clips).len()
    &&& forall|k: int|
        0 <= k < data.len() ==> #[trigger] data[k].index as int == played_clips(clips)[k]
            && data[k].describes(clips)
}

/// The total duration of one repetition of the animation whose played clips are `data`, in milliseconds.
pub fn total_duration_ms(data: &Vec<ClipData>, animation: &Animation) -> (t: u32)
    requires
        describes_played(data@, animation.clips@),
        animation_fits(*animation),
    ensures
        t == total_duration(animation.clips@),
{
    let ghost clips = animation.clips@;
    proof {
        lemma_total_duration_sum(clips);
    }
    let mut t: u32 = 0;
    let mut k: usize = 0;
    while k < data.len()
        invariant
            0 <= k <= data.len(),
            describes_played(data@, clips),
            total_duration(clips) <= u32::MAX,
            total_duration(clips) == played_sum(clips, played_clips(clips)),
            t == played_sum(clips, played_clips(clips).take(k as int)),
        decreases data.len() - k,
    {
        proof {
            lemma_played_sum_prefix_bounded(clips, played_clips(clips), (k + 1) as int);
            assert(played_clips(clips).take(k + 1).drop_last() =~= played_clips(clips).take(k as int));
        }
        proof {
            assert(data@[k as int].describes(clips));
            assert(played_clips(clips).take(k + 1).last() == played_clips(clips)[k as int]);
        }
        t = t + data[k].duration_with_repetitions_ms;
        k = k + 1;
    }
    proof {
        assert(played_clips(clips).take(data.len() as int) =~= played_clips(clips));
    }
    t
}

/// The duration of a clip over all its repetitions, if its durations can be computed in
/// `u32` milliseconds (see [clip_fits]).
fn clip_fitting_duration(clip: &Clip) -> (r: Option<u32>)
    ensures
        r is Some <==> clip_fits(*clip),
        r matches Some(d) ==> d == duration_with_repetitions(*clip),
{
    let len = clip.atlas_indices.len();
    if len > 4294967295usize {
        return None;
    }
    let repetitions = match clip.repetitions {
        Some(n) => n,
        None => 1,
    };
    let direction = match clip.direction {
        Some(d) => d,
        None => AnimationDirection::Forwards,
    };
    let reps = repetitions as u32;
    let count: u64 = match direction {
        AnimationDirection::PingPong => {
            let turns: u32 = if len == 0 { 0 } else { (len - 1) as u32 };
            assert((turns as int) * (reps as int) <= 4294967295 * 4294967295) by (nonlinear_arith)
                requires turns <= 4294967295, reps <= 4294967295;
            (turns as u64) * (reps as u64) + 1
        },
        _ => {
            assert((len as u32 as int) * (reps as int) <= 4294967295 * 4294967295) by (nonlinear_arith)
                requires (len as u32) <= 4294967295, reps <= 4294967295;
            (len as u32 as u64) * (reps as u64)
        },
    };
    if count > 4294967295u64 {
        return None;
    }
    let duration = match clip.duration {
        Some(d) => d,
        None => AnimationDuration::PerFrame(100),
    };
    match duration {
        AnimationDuration::PerFrame(d) => {
            assert((d as int) * (count as int) <= 4294967295 * 4294967295) by (nonlinear_arith)
                requires d <= 4294967295, count <= 4294967295;
            let total: u64 = (d as u64) * count;
            if total > 4294967295u64 {
                None
            } else {
                Some(total as u32)
            }
        },
        AnimationDuration::PerRepetition(r) => {
            assert((r as int) * (repetitions as int) <= 4294967295 * 18446744073709551615)
                by (nonlinear_arith)
                requires r <= 4294967295, repetitions <= 18446744073709551615;
            let total: u128 = (r as u128) * (repetitions as u128);
            if total > 4294967295u128 {
                None
            } else {
                Some(total as u32)
            }
        },
    }
}

/// Whether the durations of `animation` can be computed in `u32` milliseconds (see [animation_fits]).
pub fn fits_in_milliseconds(animation: &Animation) -> (r: bool)
    ensures
        r == animation_fits(*animation),
{
    let n = animation.clips.len();
    let mut total: u64 = 0;
    let mut i: usize = 0;
    while i < n
        invariant
            0 <= i <= n,
            n == animation.clips.len(),
            forall|k: int| 0 <= k < i ==> clip_fits(#[trigger] animation.clips[k]),
            total == total_duration(animation.clips@.take(i as int)),
            total <= u32::MAX,
        decreases n - i,
    {
        let clip = &animation.clips[i];
        proof {
            assert(animation.clips@.take(i + 1).drop_last() =~= animation.clips@.take(i as int));
            assert(animation.clips@.take(i + 1).last() == animation.clips@[i as int]);
        }
        match clip_fitting_duration(clip) {
            None => {
                return false;
            },
            Some(d) => {
                let reps = match clip.repetitions {
                    Some(k) => k,
                    None => 1,
                };
                if clip.atlas_indices.len() > 0 && reps > 0 && d > 0 {
                    total = total + d as u64;
                    if total > 4294967295u64 {
                        proof {
                            lemma_total_duration_prefix(animation.clips@, i + 1);
                        }
                        return false;
                    }
                }
            },
        }
        i = i + 1;
    }
    proof {
        assert(animation.clips@.take(n as int) =~= animation.clips@);
    }
    true
}

/// The total duration of a prefix of the clips is at most that of all the clips.
proof fn lemma_total_duration_prefix(clips: Seq<Clip>, j: int)
    requires
        0 <= j <= clips.len(),
    ensures
        total_duration(clips.take(j)) <= total_duration(clips),
    decreases clips.len(),
{
    if j < clips.len() {
        lemma_total_duration_prefix(clips.drop_last(), j);
        assert(clips.drop_last().take(j) =~= clips.take(j));
        lemma_duration_nonneg(clips.last());
    } else {
        assert(clips.take(j) =~= clips);
    }
}

/// The sum of the durations of the clips at the given positions.
pub open spec fn played_sum(clips: Seq<Clip>, positions: Seq<int>) -> int
    decreases positions.len(),
{
    if positions.len() == 0 {
        0
    } else {
        played_sum(clips, positions.drop_last()) + duration_with_repetitions(
            clips[positions.last()],
        )
    }
}

proof fn lemma_played_sum_nonneg(clips: Seq<Clip>, positions: Seq<int>)
    ensures
        played_sum(clips, positions) >= 0,
    decreases positions.len(),
{
    if positions.len() > 0 {
        lemma_played_sum_nonneg(clips, positions.drop_last());
        lemma_duration_nonneg(clips[positions.last()]);
    }
}

proof fn lemma_duration_nonneg(c: Clip)
    ensures
        duration_with_repetitions(c) >= 0,
        frame_count_with_repetitions(c) >= 0,
{
    match clip_duration(c) {
        AnimationDuration::PerFrame(d) => {
            assert(d * frame_count_with_repetitions(c) >= 0) by (nonlinear_arith)
                requires frame_count_with_repetitions(c) >= 0;
        },
        AnimationDuration::PerRepetition(r) => {
            assert(r * clip_repetitions(c) >= 0) by (nonlinear_arith);
        },
    }
}

proof fn lemma_played_sum_prefix_bounded(clips: Seq<Clip>, positions: Seq<int>, k: int)
    requires
        0 <= k <= positions.len(),
    ensures
        played_sum(clips, positions.take(k)) <= played_sum(clips, positions),
    decreases positions.len(),
{
    if k < positions.len() {
        lemma_played_sum_prefix_bounded(clips, positions.drop_last(), k);
        assert(positions.drop_last().take(k) =~= positions.take(k));
        lemma_duration_nonneg(clips[positions.last()]);
    } else {
        assert(positions.take(k) =~= positions);
    }
}

/// The total duration is the sum of the durations of the played clips.
proof fn lemma_total_duration_sum(clips: Seq<Clip>)
    ensures
        total_duration(clips) == played_sum(clips, played_clips(clips)),
        forall|k: int| 0 <= k < played_clips(clips).len() ==> 0 <= (#[trigger] played_clips(clips)[k]) < clips.len()
            && is_played(clips[played_clips(clips)[k]]),
    decreases clips.len(),
{
    if clips.len() > 0 {
        let init = clips.drop_last();
        lemma_total_duration_sum(init);
        lemma_played_sum_same_prefix(init, clips, played_clips(init));
        if is_played(clips.last()) {
            let p = played_clips(init).push(clips.len() - 1);
            assert(p.drop_last() =~= played_clips(init));
        }
        assert forall|k: int| 0 <= k < played_clips(clips).len() implies 0 <= (#[trigger] played_clips(clips)[k]) < clips.len()
            && is_played(clips[played_clips(clips)[k]]) by {
            if k < played_clips(init).len() {
                assert(played_clips(clips)[k] == played_clips(init)[k]);
                assert(clips[played_clips(init)[k]] == init[played_clips(init)[k]]);
            }
        }
    }
}

/// Sums over positions inside a prefix do not depend on what follows the prefix.
proof fn lemma_played_sum_same_prefix(prefix: Seq<Clip>, clips: Seq<Clip>, positions: Seq<int>)
    requires
        prefix.len() <= clips.len(),
        forall|i: int| 0 <= i < prefix.len() ==> prefix[i] == clips[i],
        forall|k: int| 0 <= k < positions.len() ==> 0 <= (#[trigger] positions[k]) < prefix.len(),
    ensures
        played_sum(prefix, positions) == played_sum(clips, positions),
    decreases positions.len(),
{
    if positions.len() > 0 {
        lemma_played_sum_same_prefix(prefix, clips, positions.drop_last());
        assert(positions.last() == positions[positions.len() - 1]);
    }
}

} // verus!

verus! {

// ---------------------------------------------------------------------------------------------
// Frame durations and repetitions
// ---------------------------------------------------------------------------------------------

/// The duration of each frame of a played clip, in milliseconds.
///
/// A duration set on the animation overrides the clip's: per frame, it is used as is;
/// per repetition, `scaled_repetition_ms` is the clip's share of one animation repetition,
/// per clip repetition, as the engine layer computes it. The per-repetition duration is
/// spread evenly over the clip's frames (rounding down).
pub open spec fn clip_frame_duration(
    c: Clip,
    animation_duration: Option<AnimationDuration>,
    scaled_repetition_ms: u32,
) -> u32 {
    let len = c.atlas_indices.len() as u32;
    match animation_duration {
        None => match clip_duration(c) {
            AnimationDuration::PerFrame(d) => d,
            AnimationDuration::PerRepetition(r) => (r / len) as u32,
        },
        Some(AnimationDuration::PerFrame(d)) => d,
        Some(AnimationDuration::PerRepetition(_)) => (scaled_repetition_ms / len) as u32,
    }
}

/// The frame duration of a played clip (see [clip_frame_duration]).
pub fn frame_duration_ms(
    clip: &Clip,
    data: &ClipData,
    animation_duration: Option<AnimationDuration>,
    scaled_repetition_ms: u32,
) -> (ms: u32)
    requires
        clip.atlas_indices.len() > 0,
        clip_fits(*clip),
        data.duration == clip_duration(*clip),
    ensures
        ms == clip_frame_duration(*clip, animation_duration, scaled_repetition_ms),
{
    let len = clip.atlas_indices.len() as u32;
    match animation_duration {
        None => match data.duration {
            AnimationDuration::PerFrame(d) => d,
            AnimationDuration::PerRepetition(r) => r / len,
        },
        Some(AnimationDuration::PerFrame(d)) => d,
        Some(AnimationDuration::PerRepetition(_)) => scaled_repetition_ms / len,
    }
}

/// The frame positions `0, 1, ..., len - 1` of a clip.
pub open spec fn forward_positions(len: nat) -> Seq<usize> {
    Seq::new(len, |i: int| i as usize)
}

/// The frame positions that repetition `r` of a clip plays, given its direction:
/// all frames forwards or backwards; in ping-pong, all frames forwards first, then
/// alternately backwards and forwards without repeating the turning frame.
pub open spec fn repetition_positions(direction: AnimationDirection, r: int, len: nat) -> Seq<usize> {
    let forwards = forward_positions(len);
    match direction {
        AnimationDirection::Forwards => forwards,
        AnimationDirection::Backwards => forwards.reverse(),
        AnimationDirection::PingPong => if r == 0 {
            forwards
        } else if r % 2 == 0 {
            forwards.skip(1)
        } else {
            forwards.reverse().skip(1)
        },
    }
}

/// The frame positions of each repetition of a clip whose frames last `frame_ms`,
/// leaving out the repetitions that play no frame (all of them when frames last 0 ms).
pub open spec fn clip_repetition_positions(c: Clip, frame_ms: u32) -> Seq<Seq<usize>> {
    let len = c.atlas_indices.len();
    let direction = clip_direction(c);
    let reps = clip_repetitions(c);
    if frame_ms == 0 || len == 0 || reps == 0 {
        Seq::empty()
    } else if direction == AnimationDirection::PingPong && len == 1 {
        seq![forward_positions(1)]
    } else {
        Seq::new(reps as nat, |r: int| repetition_positions(direction, r, len as nat))
    }
}

/// The playback layout of a clip in an animation.
pub struct ClipLayoutView {
    /// Position of the clip in the animation
    pub clip: int,
    /// Duration of each frame, in milliseconds
    pub frame_duration: u32,
    /// Frame positions played by each repetition, in playback order
    pub repetitions: Seq<Seq<usize>>,
}

/// The layouts of the played clips that show at least one frame, in order.
///
/// `scaled` holds, for each played clip, its scaled repetition duration (see [clip_frame_duration]).
pub open spec fn clip_layouts(
    clips: Seq<Clip>,
    played: Seq<int>,
    animation_duration: Option<AnimationDuration>,
    scaled: Seq<u32>,
) -> Seq<ClipLayoutView>
    decreases played.len(),
{
    if played.len() == 0 {
        Seq::empty()
    } else {
        let n = played.len() - 1;
        let rest = clip_layouts(clips, played.drop_last(), animation_duration, scaled);
        let c = clips[played[n]];
        let ms = clip_frame_duration(c, animation_duration, scaled[n]);
        let reps = clip_repetition_positions(c, ms);
        if reps.len() > 0 {
            rest.push(ClipLayoutView { clip: played[n], frame_duration: ms, repetitions: reps })
        } else {
            rest
        }
    }
}

/// The layouts played in reverse: clips in reverse order, each with its repetitions in
/// reverse order, each repetition's frames in reverse order.
pub open spec fn reversed_layouts(layouts: Seq<ClipLayoutView>) -> Seq<ClipLayoutView> {
    layouts.reverse().map_values(
        |l: ClipLayoutView|
            ClipLayoutView {
                clip: l.clip,
                frame_duration: l.frame_duration,
                repetitions: l.repetitions.reverse().map_values(|rep: Seq<usize>| rep.reverse()),
            },
    )
}

/// The playback layout of a clip (see [ClipLayoutView]).
pub struct ClipLayout {
    pub clip: usize,
    pub frame_duration: u32,
    pub repetitions: Vec<Vec<usize>>,
}

impl View for ClipLayout {
    type V = ClipLayoutView;

    open spec fn view(&self) -> ClipLayoutView {
        ClipLayoutView {
            clip: self.clip as int,
            frame_duration: self.frame_duration,
            repetitions: self.repetitions@.map_values(|rep: Vec<usize>| rep@),
        }
    }
}

/// The contents of a sequence of layouts.
pub open spec fn layout_views(layouts: Seq<ClipLayout>) -> Seq<ClipLayoutView> {
    layouts.map_values(|l: ClipLayout| l@)
}

/// The frame positions of the repetitions of a clip (see [clip_repetition_positions]).
fn repetition_frames(clip: &Clip, data: &ClipData, frame_ms: u32) -> (reps: Vec<Vec<usize>>)
    requires
        data.repetitions == clip_repetitions(*clip),
        data.direction == clip_direction(*clip),
    ensures
        reps@.map_values(|rep: Vec<usize>| rep@) == clip_repetition_positions(*clip, frame_ms),
{
    let len = clip.atlas_indices.len();
    let mut reference: Vec<usize> = Vec::new();
    if frame_ms > 0 {
        let mut i: usize = 0;
        while i < len
            invariant
                0 <= i <= len,
                reference@ == forward_positions(i as nat),
            decreases len - i,
        {
            reference.push(i);
            proof {
                assert(reference@ =~= forward_positions((i + 1) as nat));
            }
            i = i + 1;
        }
    } else {
        proof {
            assert(reference@ =~= Seq::<usize>::empty());
        }
    }
    let ghost full = if frame_ms > 0 { forward_positions(len as nat) } else { Seq::<usize>::empty() };
    let mut reps: Vec<Vec<usize>> = Vec::new();
    let mut r: usize = 0;
    while r < data.repetitions
        invariant
            0 <= r <= data.repetitions,
            len == clip.atlas_indices.len(),
            data.repetitions == clip_repetitions(*clip),
            data.direction == clip_direction(*clip),
            reference@ == full,
            full == (if frame_ms > 0 { forward_positions(len as nat) } else { Seq::<usize>::empty() }),
            reps@.map_values(|rep: Vec<usize>| rep@) == repetitions_so_far(*clip, frame_ms, r as int),
        decreases data.repetitions - r,
    {
        let rep = repetition_of(&reference, data.direction, r);
        let ghost before = reps@;
        if rep.len() > 0 {
            reps.push(rep);
            proof {
                assert(reps@.map_values(|rep: Vec<usize>| rep@) =~= before.map_values(|rep: Vec<usize>| rep@).push(rep@));
            }
        }
        proof {
            lemma_repetitions_step(*clip, frame_ms, r as int);
        }
        r = r + 1;
    }
    proof {
        lemma_repetitions_done(*clip, frame_ms);
    }
    reps
}

/// The repetitions built after looking at the first `r` of them (empty ones left out).
spec fn repetitions_so_far(c: Clip, frame_ms: u32, r: int) -> Seq<Seq<usize>> {
    let len = c.atlas_indices.len();
    let direction = clip_direction(c);
    if frame_ms == 0 || len == 0 || r <= 0 {
        Seq::empty()
    } else if direction == AnimationDirection::PingPong && len == 1 {
        seq![forward_positions(1)]
    } else {
        Seq::new(r as nat, |k: int| repetition_positions(direction, k, len as nat))
    }
}

/// Repetition `r` of a clip whose frames, in order, are at `reference` (nothing if there is none).
spec fn repetition_from(reference: Seq<usize>, direction: AnimationDirection, r: int) -> Seq<usize> {
    if reference.len() == 0 {
        Seq::empty()
    } else {
        match direction {
            AnimationDirection::Forwards => reference,
            AnimationDirection::Backwards => reference.reverse(),
            AnimationDirection::PingPong => if r == 0 {
                reference
            } else if r % 2 == 0 {
                reference.skip(1)
            } else {
                reference.reverse().skip(1)
            },
        }
    }
}

/// Repetition `r` of a clip whose reference frame positions are `reference`.
fn repetition_of(reference: &Vec<usize>, direction: AnimationDirection, r: usize) -> (rep: Vec<usize>)
    ensures
        rep@ == repetition_from(reference@, direction, r as int),
{
    let n = reference.len();
    let mut rep: Vec<usize> = Vec::new();
    let (backwards, skip_first) = match direction {
        AnimationDirection::Forwards => (false, false),
        AnimationDirection::Backwards => (true, false),
        AnimationDirection::PingPong => if r == 0 {
            (false, false)
        } else if r % 2 == 0 {
            (false, true)
        } else {
            (true, true)
        },
    };
    let ghost ordered = if backwards { reference@.reverse() } else { reference@ };
    let mut k: usize = if skip_first && n > 0 { 1 } else { 0 };
    let start = k;
    while k < n
        invariant
            start <= k <= n,
            n == reference.len(),
            ordered == (if backwards { reference@.reverse() } else { reference@ }),
            rep@ == ordered.subrange(start as int, k as int),
        decreases n - k,
    {
        let x = if backwards { reference[n - 1 - k] } else { reference[k] };
        rep.push(x);
        proof {
            assert(rep@ =~= ordered.subrange(start as int, k + 1));
        }
        k = k + 1;
    }
    proof {
        if n > 0 {
            assert(ordered.subrange(start as int, n as int) =~= if skip_first { ordered.skip(1) } else { ordered });
        } else {
            assert(rep@ =~= Seq::<usize>::empty());
        }
    }
    rep
}

proof fn lemma_repetitions_step(c: Clip, frame_ms: u32, r: int)
    requires
        0 <= r,
    ensures
        ({
            let len = c.atlas_indices.len();
            let reference = if frame_ms > 0 { forward_positions(len as nat) } else { Seq::<usize>::empty() };
            let rep = repetition_from(reference, clip_direction(c), r);
            repetitions_so_far(c, frame_ms, r + 1) == if rep.len() > 0 {
                repetitions_so_far(c, frame_ms, r).push(rep)
            } else {
                repetitions_so_far(c, frame_ms, r)
            }
        }),
{
    let len = c.atlas_indices.len();
    let direction = clip_direction(c);
    if frame_ms == 0 || len == 0 {
        assert(forward_positions(0) =~= Seq::<usize>::empty());
    } else if direction == AnimationDirection::PingPong && len == 1 {
        if r > 0 {
            assert(forward_positions(1).skip(1).len() == 0);
            assert(forward_positions(1).reverse().skip(1).len() == 0);
        } else {
            assert(seq![forward_positions(1)] =~= Seq::<Seq<usize>>::empty().push(forward_positions(1)));
        }
    } else {
        assert(Seq::new((r + 1) as nat, |k: int| repetition_positions(direction, k, len as nat))
            =~= Seq::new(r as nat, |k: int| repetition_positions(direction, k, len as nat)).push(
            repetition_positions(direction, r, len as nat)));
        if direction == AnimationDirection::PingPong && r > 0 {
            assert(forward_positions(len as nat).skip(1).len() > 0);
            assert(forward_positions(len as nat).reverse().skip(1).len() > 0);
        } else if direction == AnimationDirection::Backwards {
            assert(forward_positions(len as nat).reverse().len() > 0);
        }
        if r == 0 {
            assert(Seq::new(0, |k: int| repetition_positions(direction, k, len as nat)) =~= Seq::<Seq<usize>>::empty());
        }
    }
}

proof fn lemma_repetitions_done(c: Clip, frame_ms: u32)
    ensures
        repetitions_so_far(c, frame_ms, clip_repetitions(c) as int) == clip_repetition_positions(c, frame_ms),
{
}

} // verus!

verus! {

// ---------------------------------------------------------------------------------------------
// Assembling the frames
// ---------------------------------------------------------------------------------------------

/// A run of consecutive frames over which one easing is applied.
#[derive(Debug, Clone, Copy, PartialEq, Eq, Structural)]
pub struct EasingRun {
    pub easing: Easing,
    /// Number of frames in the run
    pub length: usize,
}

/// The marker-hit events of the frame at `position` of a clip, during clip repetition `repetition`.
pub open spec fn marker_events(c: Clip, position: usize, repetition: int) -> Seq<AnimationCacheMessage> {
    markers_of(c.marker_map(), position).map_values(
        |m: Marker|
            AnimationCacheMessage::MarkerHit {
                marker_id: m,
                clip_id: c.id,
                clip_repetition: repetition as usize,
            },
    )
}

/// The end of the clip repetition played just before, if any.
pub open spec fn repetition_end_events(previous: Option<(ClipId, usize)>) -> Seq<AnimationCacheMessage> {
    match previous {
        Some((id, r)) => seq![AnimationCacheMessage::ClipRepetitionEnd { clip_id: id, clip_repetition: r }],
        None => Seq::empty(),
    }
}

/// The end of the clip played just before, if any.
pub open spec fn clip_end_events(previous: Option<ClipId>) -> Seq<AnimationCacheMessage> {
    match previous {
        Some(id) => seq![AnimationCacheMessage::ClipEnd { clip_id: id }],
        None => Seq::empty(),
    }
}

/// The events that the first frame of repetition `j` of a clip adds after its markers:
/// the end of the previous clip repetition and, on the first repetition, of the previous clip.
pub open spec fn opening_events(
    c: Clip,
    j: int,
    previous_repetition: Option<(ClipId, usize)>,
    previous_clip: Option<ClipId>,
) -> Seq<AnimationCacheMessage> {
    if j == 0 {
        repetition_end_events(previous_repetition) + clip_end_events(previous_clip)
    } else {
        seq![AnimationCacheMessage::ClipRepetitionEnd { clip_id: c.id, clip_repetition: (j - 1) as usize }]
    }
}

/// The cached frames of one repetition of a clip.
pub open spec fn repetition_frames_view(
    c: Clip,
    frame_ms: u32,
    repetition: int,
    rep: Seq<usize>,
    opening: Seq<AnimationCacheMessage>,
) -> Seq<CacheFrameView> {
    Seq::new(
        rep.len(),
        |i: int|
            CacheFrameView {
                atlas_index: c.atlas_indices[rep[i] as int],
                duration: frame_ms,
                clip_id: c.id,
                clip_repetition: repetition as usize,
                messages: if i == 0 {
                    marker_events(c, rep[i], repetition) + opening
                } else {
                    marker_events(c, rep[i], repetition)
                },
            },
    )
}

/// The cached frames of the first `n` repetitions of a clip laid out as `l`.
pub open spec fn clip_frames_view(
    c: Clip,
    l: ClipLayoutView,
    n: int,
    previous_repetition: Option<(ClipId, usize)>,
    previous_clip: Option<ClipId>,
) -> Seq<CacheFrameView>
    decreases n,
{
    if n <= 0 {
        Seq::empty()
    } else {
        clip_frames_view(c, l, n - 1, previous_repetition, previous_clip) + repetition_frames_view(
            c,
            l.frame_duration,
            n - 1,
            l.repetitions[n - 1],
            opening_events(c, n - 1, previous_repetition, previous_clip),
        )
    }
}

/// The last clip repetition of a sequence of layouts, if any.
pub open spec fn last_repetition(clips: Seq<Clip>, layouts: Seq<ClipLayoutView>) -> Option<(ClipId, usize)> {
    if layouts.len() == 0 {
        None
    } else {
        Some((clips[layouts.last().clip].id, (layouts.last().repetitions.len() - 1) as usize))
    }
}

/// The last clip of a sequence of layouts, if any.
pub open spec fn last_clip_id(clips: Seq<Clip>, layouts: Seq<ClipLayoutView>) -> Option<ClipId> {
    if layouts.len() == 0 {
        None
    } else {
        Some(clips[layouts.last().clip].id)
    }
}

/// The cached frames of the clips laid out as `layouts`, one after the other.
pub open spec fn merged_frames(clips: Seq<Clip>, layouts: Seq<ClipLayoutView>) -> Seq<CacheFrameView>
    decreases layouts.len(),
{
    if layouts.len() == 0 {
        Seq::empty()
    } else {
        let init = layouts.drop_last();
        let l = layouts.last();
        merged_frames(clips, init) + clip_frames_view(
            clips[l.clip],
            l,
            l.repetitions.len() as int,
            last_repetition(clips, init),
            last_clip_id(clips, init),
        )
    }
}

/// The easing runs of a clip laid out as `l`: one per repetition, with the clip's easing.
pub open spec fn clip_runs(c: Clip, l: ClipLayoutView) -> Seq<EasingRun> {
    Seq::new(
        l.repetitions.len(),
        |j: int| EasingRun { easing: clip_easing(c), length: l.repetitions[j].len() as usize },
    )
}

/// The easing runs of the clips laid out as `layouts`, in frame order.
pub open spec fn easing_runs(clips: Seq<Clip>, layouts: Seq<ClipLayoutView>) -> Seq<EasingRun>
    decreases layouts.len(),
{
    if layouts.len() == 0 {
        Seq::empty()
    } else {
        easing_runs(clips, layouts.drop_last()) + clip_runs(clips[layouts.last().clip], layouts.last())
    }
}

/// Every layout refers to a clip of `clips` and to frame positions of that clip.
pub open spec fn layouts_valid(clips: Seq<Clip>, layouts: Seq<ClipLayoutView>) -> bool {
    forall|k: int|
        0 <= k < layouts.len() ==> {
            &&& 0 <= #[trigger] layouts[k].clip < clips.len()
            &&& layouts[k].repetitions.len() > 0
            &&& forall|j: int| 0 <= j < layouts[k].repetitions.len() ==> (#[trigger] layouts[k].repetitions[j]).len() > 0
            &&& forall|j: int, i: int|
                0 <= j < layouts[k].repetitions.len() && 0 <= i < layouts[k].repetitions[j].len()
                    ==> (#[trigger] layouts[k].repetitions[j][i] as int) < clips[layouts[k].clip].atlas_indices.len()
        }
}

/// The marker-hit events of the frame at `position` of `clip`, during clip repetition `repetition`.
fn marker_events_of(clip: &Clip, position: usize, repetition: usize) -> (r: Vec<AnimationCacheMessage>)
    ensures
        r@ == marker_events(*clip, position, repetition as int),
{
    let markers = clip.markers_at(position);
    let mut r: Vec<AnimationCacheMessage> = Vec::new();
    let mut k: usize = 0;
    while k < markers.len()
        invariant
            0 <= k <= markers.len(),
            markers@ == markers_of(clip.marker_map(), position),
            r@ == marker_events(*clip, position, repetition as int).take(k as int),
        decreases markers.len() - k,
    {
        r.push(AnimationCacheMessage::MarkerHit { marker_id: markers[k], clip_id: clip.id, clip_repetition: repetition });
        proof {
            assert(r@ =~= marker_events(*clip, position, repetition as int).take(k + 1));
        }
        k = k + 1;
    }
    proof {
        assert(marker_events(*clip, position, repetition as int).take(markers.len() as int)
            =~= marker_events(*clip, position, repetition as int));
    }
    r
}

proof fn lemma_frame_views_push(s: Seq<CacheFrame>, f: CacheFrame)
    ensures
        frame_views(s.push(f)) == frame_views(s).push(f@),
{
    assert(frame_views(s.push(f)) =~= frame_views(s).push(f@));
}

/// Lays the frames of the clips one after the other, with their events, and lists the easing runs.
fn merge_layouts(clips: &Vec<Clip>, layouts: &Vec<ClipLayout>) -> (r: (Vec<CacheFrame>, Vec<EasingRun>))
    requires
        layouts_valid(clips@, layout_views(layouts@)),
    ensures
        frame_views(r.0@) == merged_frames(clips@, layout_views(layouts@)),
        r.1@ == easing_runs(clips@, layout_views(layouts@)),
{
    let ghost lv = layout_views(layouts@);
    let mut frames: Vec<CacheFrame> = Vec::new();
    let mut runs: Vec<EasingRun> = Vec::new();
    let mut previous_repetition: Option<(ClipId, usize)> = None;
    let mut previous_clip: Option<ClipId> = None;
    let mut k: usize = 0;
    proof {
        assert(frame_views(frames@) =~= Seq::<CacheFrameView>::empty());
        assert(lv.take(0) =~= Seq::<ClipLayoutView>::empty());
    }
    while k < layouts.len()
        invariant
            0 <= k <= layouts.len(),
            lv == layout_views(layouts@),
            layouts_valid(clips@, lv),
            frame_views(frames@) == merged_frames(clips@, lv.take(k as int)),
            runs@ == easing_runs(clips@, lv.take(k as int)),
            previous_repetition == last_repetition(clips@, lv.take(k as int)),
            previous_clip == last_clip_id(clips@, lv.take(k as int)),
        decreases layouts.len() - k,
    {
        let layout = &layouts[k];
        let ghost l = lv[k as int];
        assert(l == layout@);
        assert(0 <= lv[k as int].clip < clips.len());
        let clip = &clips[layout.clip];
        let ghost c = clips@[layout.clip as int];
        let ghost opening_rep = previous_repetition;
        let ghost opening_clip = previous_clip;
        let ghost frames_before = frame_views(frames@);
        let ghost runs_before = runs@;
        let easing = match clip.easing {
            Some(e) => e,
            None => Easing::Linear,
        };
        let mut j: usize = 0;
        proof {
            assert(frame_views(frames@) =~= frames_before + clip_frames_view(c, l, 0, opening_rep, opening_clip));
            assert(runs@ =~= runs_before + clip_runs(c, l).take(0));
        }
        while j < layout.repetitions.len()
            invariant
                0 <= j <= layout.repetitions.len(),
                lv == layout_views(layouts@),
                layouts_valid(clips@, lv),
                0 <= k < layouts.len(),
                l == lv[k as int],
                l == layout@,
                c == clips@[layout.clip as int],
                *clip == c,
                easing == clip_easing(c),
                frame_views(frames@) == frames_before + clip_frames_view(c, l, j as int, opening_rep, opening_clip),
                runs@ == runs_before + clip_runs(c, l).take(j as int),
                previous_repetition == (if j == 0 { opening_rep } else { Some((c.id, (j - 1) as usize)) }),
                previous_clip == opening_clip,
            decreases layout.repetitions.len() - j,
        {
            let rep = &layout.repetitions[j];
            let ghost rv = l.repetitions[j as int];
            assert(rep@ == rv);
            let ghost opening = opening_events(c, j as int, opening_rep, opening_clip);
            let ghost rep_start = frame_views(frames@);
            let mut i: usize = 0;
            proof {
                assert(frame_views(frames@) =~= rep_start + repetition_frames_view(c, l.frame_duration, j as int, rv, opening).take(0));
            }
            while i < rep.len()
                invariant
                    0 <= i <= rep.len(),
                    rep@ == rv,
                    lv == layout_views(layouts@),
                    layouts_valid(clips@, lv),
                    0 <= k < layouts.len(),
                    0 <= j < l.repetitions.len(),
                    l == lv[k as int],
                    l == layout@,
                    rv == l.repetitions[j as int],
                    c == clips@[layout.clip as int],
                    *clip == c,
                    opening == opening_events(c, j as int, opening_rep, opening_clip),
                    previous_repetition == (if j == 0 { opening_rep } else { Some((c.id, (j - 1) as usize)) }),
                    previous_clip == opening_clip,
                    frame_views(frames@) == rep_start + repetition_frames_view(c, l.frame_duration, j as int, rv, opening).take(i as int),
                decreases rep.len() - i,
            {
                let position = rep[i];
                assert((rv[i as int] as int) < c.atlas_indices.len()) by {
                    assert(0 <= lv[k as int].clip < clips.len());
                }
                let mut events = marker_events_of(clip, position, j);
                if i == 0 {
                    match previous_repetition {
                        Some((id, r)) => {
                            events.push(AnimationCacheMessage::ClipRepetitionEnd { clip_id: id, clip_repetition: r });
                        },
                        None => {},
                    }
                    if j == 0 {
                        match previous_clip {
                            Some(id) => {
                                events.push(AnimationCacheMessage::ClipEnd { clip_id: id });
                            },
                            None => {},
                        }
                    }
                }
                let frame = CacheFrame {
                    atlas_index: clip.atlas_indices[position],
                    duration: layout.frame_duration,
                    clip_id: clip.id,
                    clip_repetition: j,
                    messages: events,
                };
                proof {
                    let expected = repetition_frames_view(c, l.frame_duration, j as int, rv, opening)[i as int];
                    if i == 0 {
                        assert(frame@.messages =~= expected.messages);
                    } else {
                        assert(frame@.messages =~= expected.messages);
                    }
                    assert(frame@ == expected);
                    lemma_frame_views_push(frames@, frame);
                }
                frames.push(frame);
                proof {
                    assert(repetition_frames_view(c, l.frame_duration, j as int, rv, opening).take(i + 1)
                        =~= repetition_frames_view(c, l.frame_duration, j as int, rv, opening).take(i as int).push(
                        repetition_frames_view(c, l.frame_duration, j as int, rv, opening)[i as int]));
                }
                i = i + 1;
            }
            runs.push(EasingRun { easing, length: rep.len() });
            previous_repetition = Some((clip.id, j));
            proof {
                assert(repetition_frames_view(c, l.frame_duration, j as int, rv, opening).take(rep.len() as int)
                    =~= repetition_frames_view(c, l.frame_duration, j as int, rv, opening));
                assert(frame_views(frames@) =~= frames_before + clip_frames_view(c, l, j + 1, opening_rep, opening_clip));
                assert(clip_runs(c, l).take(j + 1) =~= clip_runs(c, l).take(j as int).push(EasingRun { easing, length: rep.len() }));
                assert(runs@ =~= runs_before + clip_runs(c, l).take(j + 1));
            }
            j = j + 1;
        }
        previous_clip = Some(clip.id);
        proof {
            assert(lv.take(k + 1).drop_last() =~= lv.take(k as int));
            assert(lv.take(k + 1).last() == l);
            assert(clip_runs(c, l).take(l.repetitions.len() as int) =~= clip_runs(c, l));
            assert(runs@ =~= easing_runs(clips@, lv.take(k + 1)));
            assert(l.repetitions.len() > 0);
        }
        k = k + 1;
    }
    proof {
        assert(lv.take(layouts.len() as int) =~= lv);
    }
    (frames, runs)
}

} // verus!

verus! {

/// Every repetition that a clip of frame duration `frame_ms` plays is non-empty and made of
/// positions of its frames.
proof fn lemma_repetition_positions_valid(c: Clip, frame_ms: u32)
    ensures
        forall|j: int|
            0 <= j < clip_repetition_positions(c, frame_ms).len() ==> (#[trigger] clip_repetition_positions(c, frame_ms)[j]).len() > 0,
        forall|j: int, i: int|
            0 <= j < clip_repetition_positions(c, frame_ms).len() && 0 <= i < clip_repetition_positions(c, frame_ms)[j].len()
                ==> (#[trigger] clip_repetition_positions(c, frame_ms)[j][i] as int) < c.atlas_indices.len(),
{
    let len = c.atlas_indices.len();
    let direction = clip_direction(c);
    let reps = clip_repetition_positions(c, frame_ms);
    assert forall|j: int| 0 <= j < reps.len() implies (#[trigger] reps[j]).len() > 0 by {
        if !(direction == AnimationDirection::PingPong && len == 1) {
            let f = forward_positions(len as nat);
            assert(f.reverse().len() == len);
            if direction == AnimationDirection::PingPong && j > 0 {
                assert(len >= 2);
            }
        }
    }
    assert forall|j: int, i: int| 0 <= j < reps.len() && 0 <= i < reps[j].len() implies (#[trigger] reps[j][i] as int)
        < len by {
        let f = forward_positions(len as nat);
        if direction == AnimationDirection::PingPong && len == 1 {
            assert(reps[j] == forward_positions(1));
        } else {
            assert(reps[j] == repetition_positions(direction, j, len as nat));
            if direction == AnimationDirection::Backwards || (direction == AnimationDirection::PingPong && j > 0 && j % 2 == 1) {
                assert(f.reverse()[len - 1 - (if direction == AnimationDirection::PingPong { i + 1 } else { i })]
                    == f[(if direction == AnimationDirection::PingPong { i + 1 } else { i })]);
            }
        }
    }
}

proof fn lemma_clip_layouts_valid(
    clips: Seq<Clip>,
    played: Seq<int>,
    animation_duration: Option<AnimationDuration>,
    scaled: Seq<u32>,
)
    requires
        forall|k: int| 0 <= k < played.len() ==> 0 <= #[trigger] played[k] < clips.len(),
    ensures
        layouts_valid(clips, clip_layouts(clips, played, animation_duration, scaled)),
    decreases played.len(),
{
    if played.len() > 0 {
        let n = played.len() - 1;
        lemma_clip_layouts_valid(clips, played.drop_last(), animation_duration, scaled);
        let c = clips[played[n]];
        let ms = clip_frame_duration(c, animation_duration, scaled[n]);
        lemma_repetition_positions_valid(c, ms);
        let rest = clip_layouts(clips, played.drop_last(), animation_duration, scaled);
        let all = clip_layouts(clips, played, animation_duration, scaled);
        assert forall|k: int| 0 <= k < all.len() implies {
            &&& 0 <= #[trigger] all[k].clip < clips.len()
            &&& all[k].repetitions.len() > 0
            &&& forall|j: int| 0 <= j < all[k].repetitions.len() ==> (#[trigger] all[k].repetitions[j]).len() > 0
            &&& forall|j: int, i: int|
                0 <= j < all[k].repetitions.len() && 0 <= i < all[k].repetitions[j].len()
                    ==> (#[trigger] all[k].repetitions[j][i] as int) < clips[all[k].clip].atlas_indices.len()
        } by {
            if k < rest.len() {
                assert(all[k] == rest[k]);
            }
        }
    }
}

/// The layouts of the clips of `animation` that show frames (see [clip_layouts]).
fn build_layouts(animation: &Animation, data: &Vec<ClipData>, scaled: &Vec<u32>) -> (r: Vec<ClipLayout>)
    requires
        animation_fits(*animation),
        describes_played(data@, animation.clips@),
        scaled.len() == data.len(),
    ensures
        layout_views(r@) == clip_layouts(
            animation.clips@,
            played_clips(animation.clips@),
            animation.duration,
            scaled@,
        ),
{
    let ghost clips = animation.clips@;
    let ghost played = played_clips(clips);
    proof {
        lemma_total_duration_sum(clips);
    }
    let mut r: Vec<ClipLayout> = Vec::new();
    let mut k: usize = 0;
    proof {
        assert(layout_views(r@) =~= Seq::<ClipLayoutView>::empty());
        assert(played.take(0) =~= Seq::<int>::empty());
    }
    while k < data.len()
        invariant
            0 <= k <= data.len(),
            clips == animation.clips@,
            played == played_clips(clips),
            animation_fits(*animation),
            describes_played(data@, clips),
            scaled.len() == data.len(),
            forall|q: int| 0 <= q < played.len() ==> 0 <= (#[trigger] played[q]) < clips.len()
                && is_played(clips[played[q]]),
            layout_views(r@) == clip_layouts(clips, played.take(k as int), animation.duration, scaled@),
        decreases data.len() - k,
    {
        let d = &data[k];
        assert(d.index as int == played[k as int] && d.describes(clips));
        let clip = &animation.clips[d.index];
        assert(is_played(clips[played[k as int]]));
        assert(clip_fits(animation.clips[d.index as int]));
        let ms = frame_duration_ms(clip, d, animation.duration, scaled[k]);
        let repetitions = repetition_frames(clip, d, ms);
        let ghost before = layout_views(r@);
        proof {
            assert(played.take(k + 1).drop_last() =~= played.take(k as int));
            assert(played.take(k + 1)[k as int] == played[k as int]);
        }
        if repetitions.len() > 0 {
            let layout = ClipLayout { clip: d.index, frame_duration: ms, repetitions };
            r.push(layout);
            proof {
                assert(layout_views(r@) =~= before.push(layout@));
            }
        }
        k = k + 1;
    }
    proof {
        assert(played.take(data.len() as int) =~= played);
    }
    r
}

/// The elements of `v` in reverse order.
fn reversed_positions(v: &Vec<usize>) -> (r: Vec<usize>)
    ensures
        r@ == v@.reverse(),
{
    let n = v.len();
    let mut r: Vec<usize> = Vec::new();
    let mut k: usize = 0;
    while k < n
        invariant
            0 <= k <= n,
            n == v.len(),
            r@ == v@.reverse().take(k as int),
        decreases n - k,
    {
        r.push(v[n - 1 - k]);
        proof {
            assert(r@ =~= v@.reverse().take(k + 1));
        }
        k = k + 1;
    }
    proof {
        assert(v@.reverse().take(n as int) =~= v@.reverse());
    }
    r
}

/// The layouts played in reverse (see [reversed_layouts]).
fn reverse_layouts(layouts: &Vec<ClipLayout>) -> (r: Vec<ClipLayout>)
    ensures
        layout_views(r@) == reversed_layouts(layout_views(layouts@)),
{
    let ghost lv = layout_views(layouts@);
    let n = layouts.len();
    let mut r: Vec<ClipLayout> = Vec::new();
    let mut k: usize = 0;
    while k < n
        invariant
            0 <= k <= n,
            n == layouts.len(),
            lv == layout_views(layouts@),
            layout_views(r@) == reversed_layouts(lv).take(k as int),
        decreases n - k,
    {
        let source = &layouts[n - 1 - k];
        let ghost sv = lv[n - 1 - k];
        assert(sv == source@);
        let m = source.repetitions.len();
        let mut repetitions: Vec<Vec<usize>> = Vec::new();
        let ghost target = sv.repetitions.reverse().map_values(|rep: Seq<usize>| rep.reverse());
        let mut j: usize = 0;
        while j < m
            invariant
                0 <= j <= m,
                m == source.repetitions.len(),
                sv == source@,
                target == sv.repetitions.reverse().map_values(|rep: Seq<usize>| rep.reverse()),
                repetitions@.map_values(|rep: Vec<usize>| rep@) == target.take(j as int),
            decreases m - j,
        {
            let rep = reversed_positions(&source.repetitions[m - 1 - j]);
            let ghost before = repetitions@;
            repetitions.push(rep);
            proof {
                assert(sv.repetitions[m - 1 - j] == source.repetitions@[m - 1 - j]@);
                assert(sv.repetitions.len() == m);
                assert(target[j as int] == sv.repetitions[m - 1 - j].reverse());
                assert(repetitions@.map_values(|rep: Vec<usize>| rep@) =~= before.map_values(|rep: Vec<usize>| rep@).push(rep@));
                assert(target.take(j + 1) =~= target.take(j as int).push(target[j as int]));
            }
            j = j + 1;
        }
        let layout = ClipLayout { clip: source.clip, frame_duration: source.frame_duration, repetitions };
        let ghost before = layout_views(r@);
        r.push(layout);
        proof {
            assert(target.take(m as int) =~= target);
            assert(layout@ == reversed_layouts(lv)[k as int]);
            assert(layout_views(r@) =~= before.push(layout@));
            assert(reversed_layouts(lv).take(k + 1) =~= reversed_layouts(lv).take(k as int).push(reversed_layouts(lv)[k as int]));
        }
        k = k + 1;
    }
    proof {
        assert(reversed_layouts(lv).take(n as int) =~= reversed_layouts(lv));
    }
    r
}

/// Reversing the layouts keeps them valid.
proof fn lemma_reversed_layouts_valid(clips: Seq<Clip>, layouts: Seq<ClipLayoutView>)
    requires
        layouts_valid(clips, layouts),
    ensures
        layouts_valid(clips, reversed_layouts(layouts)),
{
    let rl = reversed_layouts(layouts);
    let n = layouts.len();
    assert forall|k: int| 0 <= k < rl.len() implies {
        &&& 0 <= #[trigger] rl[k].clip < clips.len()
        &&& rl[k].repetitions.len() > 0
        &&& forall|j: int| 0 <= j < rl[k].repetitions.len() ==> (#[trigger] rl[k].repetitions[j]).len() > 0
        &&& forall|j: int, i: int|
            0 <= j < rl[k].repetitions.len() && 0 <= i < rl[k].repetitions[j].len()
                ==> (#[trigger] rl[k].repetitions[j][i] as int) < clips[rl[k].clip].atlas_indices.len()
    } by {
        let src = layouts[n - 1 - k];
        assert(rl[k].clip == src.clip);
        let m = src.repetitions.len();
        assert forall|j: int| 0 <= j < rl[k].repetitions.len() implies (#[trigger] rl[k].repetitions[j]).len() > 0 by {
            assert(rl[k].repetitions[j] == src.repetitions[m - 1 - j].reverse());
        }
        assert forall|j: int, i: int|
            0 <= j < rl[k].repetitions.len() && 0 <= i < rl[k].repetitions[j].len() implies (
            #[trigger] rl[k].repetitions[j][i] as int) < clips[rl[k].clip].atlas_indices.len() by {
            let srep = src.repetitions[m - 1 - j];
            assert(rl[k].repetitions[j] == srep.reverse());
            assert(rl[k].repetitions[j][i] == srep[srep.len() - 1 - i]);
        }
    }
}

} // verus!

verus! {

// ---------------------------------------------------------------------------------------------
// The cache
// ---------------------------------------------------------------------------------------------

/// The repetitions of an animation (looping if unset).
pub open spec fn animation_repeat(a: Animation) -> AnimationRepeat {
    match a.repetitions {
        Some(r) => r,
        None => AnimationRepeat::Loop,
    }
}

/// The direction of an animation (forwards if unset).
pub open spec fn animation_direction(a: Animation) -> AnimationDirection {
    match a.direction {
        Some(d) => d,
        None => AnimationDirection::Forwards,
    }
}

/// The easing of an animation (linear if unset).
pub open spec fn animation_easing(a: Animation) -> Easing {
    match a.easing {
        Some(e) => e,
        None => Easing::Linear,
    }
}

/// An animation that repeats 0 times or lasts 0 ms plays no frame.
pub open spec fn plays_nothing(a: Animation) -> bool {
    animation_repeat(a) == AnimationRepeat::Times(0) || total_duration(a.clips@) == 0
}

/// The layouts of the clips of an animation that show frames, in clip order.
pub open spec fn animation_layouts(a: Animation, scaled: Seq<u32>) -> Seq<ClipLayoutView> {
    clip_layouts(a.clips@, played_clips(a.clips@), a.duration, scaled)
}

/// The frames of a repetition of an animation: its clips in order, or all reversed when it plays backwards.
pub open spec fn cached_frames(a: Animation, scaled: Seq<u32>) -> Seq<CacheFrameView> {
    let layouts = animation_layouts(a, scaled);
    if animation_direction(a) == AnimationDirection::Backwards {
        merged_frames(a.clips@, reversed_layouts(layouts))
    } else {
        merged_frames(a.clips@, layouts)
    }
}

/// The frames of the odd repetitions of a ping-pong animation: all of them, reversed.
pub open spec fn cached_pong_frames(a: Animation, scaled: Seq<u32>) -> Seq<CacheFrameView> {
    merged_frames(a.clips@, reversed_layouts(animation_layouts(a, scaled)))
}

/// The easing runs over [cached_frames].
pub open spec fn cached_runs(a: Animation, scaled: Seq<u32>) -> Seq<EasingRun> {
    let layouts = animation_layouts(a, scaled);
    if animation_direction(a) == AnimationDirection::Backwards {
        easing_runs(a.clips@, reversed_layouts(layouts))
    } else {
        easing_runs(a.clips@, layouts)
    }
}

/// The easing runs over [cached_pong_frames].
pub open spec fn cached_pong_runs(a: Animation, scaled: Seq<u32>) -> Seq<EasingRun> {
    easing_runs(a.clips@, reversed_layouts(animation_layouts(a, scaled)))
}

/// The number of repetitions to play, `None` when looping.
pub open spec fn cache_repetitions(a: Animation) -> Option<usize> {
    match animation_repeat(a) {
        AnimationRepeat::Loop => None,
        AnimationRepeat::Times(n) => Some(n),
    }
}

/// A cache together with how to ease it.
///
/// Easing remaps frame durations with a floating-point curve, which the engine layer
/// applies: first each run of `easing_runs` (resp. `easing_runs_pong`) with its own easing,
/// over consecutive frames of `cache.frames` (resp. `cache.frames_pong`), then `easing`
/// over all the frames.
pub struct CacheLayout {
    pub cache: AnimationCache,
    pub easing_runs: Vec<EasingRun>,
    pub easing_runs_pong: Vec<EasingRun>,
    pub easing: Easing,
}

/// The pong frames, when there are any, are as many as the regular frames.
pub open spec fn cache_well_formed(cache: AnimationCache) -> bool {
    cache.frames_pong matches Some(pong) ==> pong.len() == cache.frames.len()
}

impl AnimationCache {
    /// A cache that plays no frame.
    pub fn empty() -> (c: AnimationCache)
        ensures
            c.frames@.len() == 0,
            c.frames_pong is None,
            c.repetitions is None,
            c.animation_direction == AnimationDirection::Forwards,
    {
        AnimationCache {
            frames: Vec::new(),
            frames_pong: None,
            repetitions: None,
            animation_direction: AnimationDirection::Forwards,
        }
    }

    /// Pre-computes the frames of one repetition of `animation`, before easing.
    ///
    /// `scaled_repetition_ms` holds, for each clip that takes part in playback (see
    /// [played_clip_data]), its share of the animation repetition duration per clip
    /// repetition; it is only read when the animation sets a per-repetition duration. An
    /// animation that repeats zero times plays nothing, whatever its clips.
    pub fn new(animation: &Animation, scaled_repetition_ms: &Vec<u32>) -> (r: CacheLayout)
        requires
            animation_repeat(*animation) != AnimationRepeat::Times(0) ==> {
                &&& animation_fits(*animation)
                &&& scaled_repetition_ms.len() == played_clips(animation.clips@).len()
            },
        ensures
            plays_nothing(*animation) ==> {
                &&& r.cache.frames@.len() == 0
                &&& r.cache.frames_pong is None
                &&& r.cache.repetitions is None
                &&& r.cache.animation_direction == AnimationDirection::Forwards
                &&& r.easing_runs@.len() == 0
                &&& r.easing_runs_pong@.len() == 0
            },
            !plays_nothing(*animation) ==> {
                &&& frame_views(r.cache.frames@) == cached_frames(*animation, scaled_repetition_ms@)
                &&& r.easing_runs@ == cached_runs(*animation, scaled_repetition_ms@)
                &&& (r.cache.frames_pong is Some) == (animation_direction(*animation)
                    == AnimationDirection::PingPong)
                &&& r.cache.frames_pong matches Some(p) ==> frame_views(p@) == cached_pong_frames(
                    *animation,
                    scaled_repetition_ms@,
                )
                &&& r.easing_runs_pong@ == if animation_direction(*animation) == AnimationDirection::PingPong {
                    cached_pong_runs(*animation, scaled_repetition_ms@)
                } else {
                    Seq::empty()
                }
                &&& r.cache.repetitions == cache_repetitions(*animation)
                &&& r.cache.animation_direction == animation_direction(*animation)
            },
            r.easing == animation_easing(*animation),
            cache_well_formed(r.cache),
    {
        let easing = match animation.easing {
            Some(e) => e,
            None => Easing::Linear,
        };
        let repeat = match animation.repetitions {
            Some(r) => r,
            None => AnimationRepeat::Loop,
        };
        if repeat == AnimationRepeat::Times(0) {
            return CacheLayout {
                cache: AnimationCache::empty(),
                easing_runs: Vec::new(),
                easing_runs_pong: Vec::new(),
                easing,
            };
        }
        let data = played_clip_data(animation);
        let total = total_duration_ms(&data, animation);
        if total == 0 {
            return CacheLayout {
                cache: AnimationCache::empty(),
                easing_runs: Vec::new(),
                easing_runs_pong: Vec::new(),
                easing,
            };
        }
        let layouts = build_layouts(animation, &data, scaled_repetition_ms);
        proof {
            lemma_total_duration_sum(animation.clips@);
            lemma_clip_layouts_valid(animation.clips@, played_clips(animation.clips@), animation.duration, scaled_repetition_ms@);
            lemma_reversed_layouts_valid(animation.clips@, layout_views(layouts@));
        }
        let direction = match animation.direction {
            Some(d) => d,
            None => AnimationDirection::Forwards,
        };
        let (frames, frames_pong, runs, runs_pong) = match direction {
            AnimationDirection::Forwards => {
                let (frames, runs) = merge_layouts(&animation.clips, &layouts);
                (frames, None, runs, Vec::new())
            },
            AnimationDirection::Backwards => {
                let reversed = reverse_layouts(&layouts);
                let (frames, runs) = merge_layouts(&animation.clips, &reversed);
                (frames, None, runs, Vec::new())
            },
            AnimationDirection::PingPong => {
                let (frames, runs) = merge_layouts(&animation.clips, &layouts);
                let reversed = reverse_layouts(&layouts);
                let (frames_pong, runs_pong) = merge_layouts(&animation.clips, &reversed);
                (frames, Some(frames_pong), runs, runs_pong)
            },
        };
        let repetitions = match repeat {
            AnimationRepeat::Loop => None,
            AnimationRepeat::Times(n) => Some(n),
        };
        proof {
            lemma_backwards_is_reversed_forwards(animation.clips@, layout_views(layouts@));
            assert(frame_views(frames@).len() == frames@.len());
            assert(frames_pong matches Some(p) ==> frame_views(p@).len() == p@.len());
        }
        CacheLayout {
            cache: AnimationCache { frames, frames_pong, repetitions, animation_direction: direction },
            easing_runs: runs,
            easing_runs_pong: runs_pong,
            easing,
        }
    }
}

} // verus!

verus! {

// ---------------------------------------------------------------------------------------------
// Reversed playback
// ---------------------------------------------------------------------------------------------

/// The atlas indices of a sequence of frames, in order.
pub open spec fn atlas_sequence(frames: Seq<CacheFrameView>) -> Seq<usize> {
    frames.map_values(|f: CacheFrameView| f.atlas_index)
}

/// The timing of a sequence of frames: the atlas index and the duration of each, in order.
pub open spec fn timing_sequence(frames: Seq<CacheFrameView>) -> Seq<(usize, u32)> {
    frames.map_values(|f: CacheFrameView| (f.atlas_index, f.duration))
}

/// The timing of one repetition of clip `c` that shows the frames at positions `rep`, each for `ms`.
pub open spec fn repetition_timing(c: Clip, ms: u32, rep: Seq<usize>) -> Seq<(usize, u32)> {
    rep.map_values(|p: usize| (c.atlas_indices[p as int], ms))
}

/// The timing of the repetitions `reps` of clip `c`, each frame shown for `ms`, in order.
pub open spec fn repetitions_timing(c: Clip, ms: u32, reps: Seq<Seq<usize>>) -> Seq<(usize, u32)>
    decreases reps.len(),
{
    if reps.len() == 0 {
        Seq::empty()
    } else {
        repetitions_timing(c, ms, reps.drop_last()) + repetition_timing(c, ms, reps.last())
    }
}

/// The timing of the clips laid out as `layouts`, in order.
pub open spec fn layouts_timing(clips: Seq<Clip>, layouts: Seq<ClipLayoutView>) -> Seq<(usize, u32)>
    decreases layouts.len(),
{
    if layouts.len() == 0 {
        Seq::empty()
    } else {
        layouts_timing(clips, layouts.drop_last()) + repetitions_timing(
            clips[layouts.last().clip],
            layouts.last().frame_duration,
            layouts.last().repetitions,
        )
    }
}

proof fn lemma_timing_concat(a: Seq<CacheFrameView>, b: Seq<CacheFrameView>)
    ensures
        timing_sequence(a + b) == timing_sequence(a) + timing_sequence(b),
{
    assert(timing_sequence(a + b) =~= timing_sequence(a) + timing_sequence(b));
}

proof fn lemma_clip_frames_timing(
    c: Clip,
    l: ClipLayoutView,
    n: int,
    previous_repetition: Option<(ClipId, usize)>,
    previous_clip: Option<ClipId>,
)
    requires
        0 <= n <= l.repetitions.len(),
    ensures
        timing_sequence(clip_frames_view(c, l, n, previous_repetition, previous_clip)) == repetitions_timing(
            c,
            l.frame_duration,
            l.repetitions.take(n),
        ),
    decreases n,
{
    if n == 0 {
        assert(timing_sequence(Seq::<CacheFrameView>::empty()) =~= Seq::<(usize, u32)>::empty());
    } else {
        lemma_clip_frames_timing(c, l, n - 1, previous_repetition, previous_clip);
        let rep = repetition_frames_view(
            c,
            l.frame_duration,
            n - 1,
            l.repetitions[n - 1],
            opening_events(c, n - 1, previous_repetition, previous_clip),
        );
        lemma_timing_concat(clip_frames_view(c, l, n - 1, previous_repetition, previous_clip), rep);
        assert(l.repetitions.take(n).drop_last() =~= l.repetitions.take(n - 1));
        assert(timing_sequence(rep) =~= repetition_timing(c, l.frame_duration, l.repetitions[n - 1]));
    }
}

/// The frames of the layouts show the atlas indices of their repetitions, each for the
/// frame duration of its clip, in order.
proof fn lemma_merged_timing(clips: Seq<Clip>, layouts: Seq<ClipLayoutView>)
    ensures
        timing_sequence(merged_frames(clips, layouts)) == layouts_timing(clips, layouts),
    decreases layouts.len(),
{
    if layouts.len() == 0 {
        assert(timing_sequence(Seq::<CacheFrameView>::empty()) =~= Seq::<(usize, u32)>::empty());
    } else {
        let init = layouts.drop_last();
        let l = layouts.last();
        lemma_merged_timing(clips, init);
        let cf = clip_frames_view(
            clips[l.clip],
            l,
            l.repetitions.len() as int,
            last_repetition(clips, init),
            last_clip_id(clips, init),
        );
        lemma_timing_concat(merged_frames(clips, init), cf);
        lemma_clip_frames_timing(
            clips[l.clip],
            l,
            l.repetitions.len() as int,
            last_repetition(clips, init),
            last_clip_id(clips, init),
        );
        assert(l.repetitions.take(l.repetitions.len() as int) =~= l.repetitions);
    }
}

proof fn lemma_repetitions_timing_concat(c: Clip, ms: u32, a: Seq<Seq<usize>>, b: Seq<Seq<usize>>)
    ensures
        repetitions_timing(c, ms, a + b) == repetitions_timing(c, ms, a) + repetitions_timing(c, ms, b),
    decreases b.len(),
{
    if b.len() == 0 {
        assert(a + b =~= a);
        assert(repetitions_timing(c, ms, a) + Seq::<(usize, u32)>::empty() =~= repetitions_timing(c, ms, a));
    } else {
        lemma_repetitions_timing_concat(c, ms, a, b.drop_last());
        assert((a + b).drop_last() =~= a + b.drop_last());
        assert((a + b).last() == b.last());
        let f = repetition_timing(c, ms, b.last());
        assert(repetitions_timing(c, ms, a) + repetitions_timing(c, ms, b.drop_last()) + f
            =~= repetitions_timing(c, ms, a) + (repetitions_timing(c, ms, b.drop_last()) + f));
    }
}

proof fn lemma_layouts_timing_concat(clips: Seq<Clip>, a: Seq<ClipLayoutView>, b: Seq<ClipLayoutView>)
    ensures
        layouts_timing(clips, a + b) == layouts_timing(clips, a) + layouts_timing(clips, b),
    decreases b.len(),
{
    if b.len() == 0 {
        assert(a + b =~= a);
        assert(layouts_timing(clips, a) + Seq::<(usize, u32)>::empty() =~= layouts_timing(clips, a));
    } else {
        lemma_layouts_timing_concat(clips, a, b.drop_last());
        assert((a + b).drop_last() =~= a + b.drop_last());
        assert((a + b).last() == b.last());
        let f = repetitions_timing(clips[b.last().clip], b.last().frame_duration, b.last().repetitions);
        assert(layouts_timing(clips, a) + layouts_timing(clips, b.drop_last()) + f =~= layouts_timing(clips, a)
            + (layouts_timing(clips, b.drop_last()) + f));
    }
}

/// Reversing the repetitions and the frames of each reverses the timing shown.
proof fn lemma_repetitions_timing_reversed(c: Clip, ms: u32, reps: Seq<Seq<usize>>)
    ensures
        repetitions_timing(c, ms, reps.reverse().map_values(|rep: Seq<usize>| rep.reverse()))
            == repetitions_timing(c, ms, reps).reverse(),
    decreases reps.len(),
{
    let rev = reps.reverse().map_values(|rep: Seq<usize>| rep.reverse());
    if reps.len() == 0 {
        assert(rev =~= Seq::<Seq<usize>>::empty());
        assert(Seq::<(usize, u32)>::empty().reverse() =~= Seq::<(usize, u32)>::empty());
    } else {
        let init = reps.drop_last();
        let last = reps.last();
        lemma_repetitions_timing_reversed(c, ms, init);
        let rev_init = init.reverse().map_values(|rep: Seq<usize>| rep.reverse());
        assert(rev =~= seq![last.reverse()] + rev_init);
        lemma_repetitions_timing_concat(c, ms, seq![last.reverse()], rev_init);
        assert(seq![last.reverse()].drop_last() =~= Seq::<Seq<usize>>::empty());
        let f = repetition_timing(c, ms, last);
        assert(repetitions_timing(c, ms, Seq::<Seq<usize>>::empty()) == Seq::<(usize, u32)>::empty());
        assert(seq![last.reverse()].last() == last.reverse());
        assert(repetitions_timing(c, ms, seq![last.reverse()]) == repetitions_timing(
            c,
            ms,
            seq![last.reverse()].drop_last(),
        ) + repetition_timing(c, ms, last.reverse()));
        assert(repetitions_timing(c, ms, seq![last.reverse()]) =~= Seq::<(usize, u32)>::empty()
            + repetition_timing(c, ms, last.reverse()));
        assert(repetition_timing(c, ms, last.reverse()) =~= f.reverse());
        assert((repetitions_timing(c, ms, init) + f).reverse() =~= f.reverse() + repetitions_timing(c, ms, init).reverse());
    }
}

/// Playing laid-out clips in reverse shows their frames, each for its duration, in reverse order.
pub proof fn lemma_reversed_timing(clips: Seq<Clip>, layouts: Seq<ClipLayoutView>)
    ensures
        layouts_timing(clips, reversed_layouts(layouts)) == layouts_timing(clips, layouts).reverse(),
    decreases layouts.len(),
{
    let rl = reversed_layouts(layouts);
    if layouts.len() == 0 {
        assert(rl =~= Seq::<ClipLayoutView>::empty());
        assert(Seq::<(usize, u32)>::empty().reverse() =~= Seq::<(usize, u32)>::empty());
    } else {
        let init = layouts.drop_last();
        let l = layouts.last();
        lemma_reversed_timing(clips, init);
        let rl_init = reversed_layouts(init);
        let rev_l = ClipLayoutView {
            clip: l.clip,
            frame_duration: l.frame_duration,
            repetitions: l.repetitions.reverse().map_values(|rep: Seq<usize>| rep.reverse()),
        };
        assert(rl =~= seq![rev_l] + rl_init);
        lemma_layouts_timing_concat(clips, seq![rev_l], rl_init);
        assert(seq![rev_l].drop_last() =~= Seq::<ClipLayoutView>::empty());
        lemma_repetitions_timing_reversed(clips[l.clip], l.frame_duration, l.repetitions);
        let f = repetitions_timing(clips[l.clip], l.frame_duration, l.repetitions);
        assert(layouts_timing(clips, Seq::<ClipLayoutView>::empty()) == Seq::<(usize, u32)>::empty());
        assert(seq![rev_l].last() == rev_l);
        assert(layouts_timing(clips, seq![rev_l]) == layouts_timing(clips, seq![rev_l].drop_last())
            + repetitions_timing(clips[rev_l.clip], rev_l.frame_duration, rev_l.repetitions));
        assert(layouts_timing(clips, seq![rev_l]) =~= Seq::<(usize, u32)>::empty() + f.reverse());
        assert((layouts_timing(clips, init) + f).reverse() =~= f.reverse() + layouts_timing(clips, init).reverse());
    }
}

/// The atlas indices of frames are the first components of their timing.
proof fn lemma_atlas_of_timing(frames: Seq<CacheFrameView>)
    ensures
        atlas_sequence(frames) == timing_sequence(frames).map_values(|t: (usize, u32)| t.0),
{
    assert(atlas_sequence(frames) =~= timing_sequence(frames).map_values(|t: (usize, u32)| t.0));
}

/// Played backwards, an animation shows the frames of its forward playback in reverse order,
/// each for the same duration; in particular, both have as many frames.
pub proof fn lemma_backwards_is_reversed_forwards(clips: Seq<Clip>, layouts: Seq<ClipLayoutView>)
    ensures
        timing_sequence(merged_frames(clips, reversed_layouts(layouts))) == timing_sequence(
            merged_frames(clips, layouts),
        ).reverse(),
        atlas_sequence(merged_frames(clips, reversed_layouts(layouts))) == atlas_sequence(
            merged_frames(clips, layouts),
        ).reverse(),
        merged_frames(clips, reversed_layouts(layouts)).len() == merged_frames(clips, layouts).len(),
{
    let back = merged_frames(clips, reversed_layouts(layouts));
    let fwd = merged_frames(clips, layouts);
    lemma_merged_timing(clips, layouts);
    lemma_merged_timing(clips, reversed_layouts(layouts));
    lemma_reversed_timing(clips, layouts);
    assert(timing_sequence(back).len() == back.len());
    lemma_atlas_of_timing(back);
    lemma_atlas_of_timing(fwd);
    assert(atlas_sequence(back) =~= atlas_sequence(fwd).reverse());
}

/// The pong frames of a ping-pong animation show its regular frames in reverse order, each
/// for the same duration, and there are as many of them; the frames of a backwards animation
/// are those of the same animation played forwards, in reverse order, with the same durations.
pub proof fn lemma_cache_reversals(a: Animation, scaled: Seq<u32>)
    ensures
        timing_sequence(cached_pong_frames(a, scaled)) == timing_sequence(
            merged_frames(a.clips@, animation_layouts(a, scaled)),
        ).reverse(),
        atlas_sequence(cached_pong_frames(a, scaled)) == atlas_sequence(
            merged_frames(a.clips@, animation_layouts(a, scaled)),
        ).reverse(),
        cached_pong_frames(a, scaled).len() == merged_frames(a.clips@, animation_layouts(a, scaled)).len(),
        animation_direction(a) == AnimationDirection::PingPong ==> cached_pong_frames(a, scaled).len()
            == cached_frames(a, scaled).len(),
        animation_direction(a) == AnimationDirection::Backwards ==> timing_sequence(cached_frames(a, scaled))
            == timing_sequence(merged_frames(a.clips@, animation_layouts(a, scaled))).reverse(),
        animation_direction(a) == AnimationDirection::Backwards ==> atlas_sequence(cached_frames(a, scaled))
            == atlas_sequence(merged_frames(a.clips@, animation_layouts(a, scaled))).reverse(),
{
    lemma_backwards_is_reversed_forwards(a.clips@, animation_layouts(a, scaled));
}

/// The direction of an animation only orders its frames: with the same clips and duration,
/// a ping-pong animation plays the frames of the forward animation on its even repetitions
/// and exactly the frames of the backwards animation on its odd repetitions.
pub proof fn lemma_directions_agree(forwards: Animation, backwards: Animation, ping_pong: Animation, scaled: Seq<u32>)
    requires
        forwards.clips@ == backwards.clips@,
        forwards.clips@ == ping_pong.clips@,
        forwards.duration == backwards.duration,
        forwards.duration == ping_pong.duration,
        animation_direction(forwards) == AnimationDirection::Forwards,
        animation_direction(backwards) == AnimationDirection::Backwards,
        animation_direction(ping_pong) == AnimationDirection::PingPong,
    ensures
        cached_frames(ping_pong, scaled) == cached_frames(forwards, scaled),
        cached_pong_frames(ping_pong, scaled) == cached_frames(backwards, scaled),
        timing_sequence(cached_frames(backwards, scaled)) == timing_sequence(cached_frames(forwards, scaled)).reverse(),
{
    assert(animation_layouts(forwards, scaled) == animation_layouts(backwards, scaled));
    assert(animation_layouts(forwards, scaled) == animation_layouts(ping_pong, scaled));
    lemma_backwards_is_reversed_forwards(forwards.clips@, animation_layouts(forwards, scaled));
}

} // verus!

verus! {

// ---------------------------------------------------------------------------------------------
// Counting the frames a clip plays
// ---------------------------------------------------------------------------------------------

/// The number of frames played by a sequence of repetitions, in total.
pub open spec fn frames_laid_out(reps: Seq<Seq<usize>>) -> int
    decreases reps.len(),
{
    if reps.len() == 0 {
        0
    } else {
        frames_laid_out(reps.drop_last()) + reps.last().len()
    }
}

proof fn lemma_repetitions_laid_out(direction: AnimationDirection, len: nat, n: nat)
    requires
        len > 0,
    ensures
        frames_laid_out(Seq::new(n, |r: int| repetition_positions(direction, r, len))) == if direction
            == AnimationDirection::PingPong {
            if n == 0 {
                0int
            } else {
                len + (n - 1) * (len - 1)
            }
        } else {
            (n * len) as int
        },
    decreases n,
{
    let s = Seq::new(n, |r: int| repetition_positions(direction, r, len));
    if n > 0 {
        lemma_repetitions_laid_out(direction, len, (n - 1) as nat);
        assert(s.drop_last() =~= Seq::new((n - 1) as nat, |r: int| repetition_positions(direction, r, len)));
        assert(s.last() == repetition_positions(direction, n - 1, len));
        assert(forward_positions(len).len() == len);
        assert((n - 1) * len + len == n * len) by (nonlinear_arith);
        if n >= 2 {
            assert((n - 2) * (len - 1) + (len - 1) == (n - 1) * (len - 1)) by (nonlinear_arith);
        }
    }
}

/// A clip's frame count over its repetitions is the number of frames its repetitions play
/// (a ping-pong clip does not repeat its turning frames), and a clip whose frames each last
/// `d` ms lasts `d` times that many frames.
pub proof fn lemma_frame_count_is_frames_played(c: Clip, frame_ms: u32)
    requires
        frame_ms > 0,
        c.atlas_indices.len() > 0,
        clip_repetitions(c) > 0,
        c.atlas_indices.len() <= u32::MAX,
        clip_repetitions(c) <= u32::MAX,
    ensures
        frame_count_with_repetitions(c) == frames_laid_out(clip_repetition_positions(c, frame_ms)),
        clip_duration(c) matches AnimationDuration::PerFrame(d) ==> duration_with_repetitions(c) == d
            * frames_laid_out(clip_repetition_positions(c, frame_ms)),
{
    let len = c.atlas_indices.len();
    let reps = clip_repetitions(c);
    let direction = clip_direction(c);
    if direction == AnimationDirection::PingPong && len == 1 {
        let s = seq![forward_positions(1)];
        assert(s.drop_last() =~= Seq::<Seq<usize>>::empty());
        assert(frames_laid_out(s.drop_last()) == 0);
        assert(s.last().len() == 1);
        assert(frames_laid_out(s) == 1);
        let turns: usize = 0;
        assert((turns as u32) * (reps as u32) == 0) by (nonlinear_arith)
            requires
                turns == 0,
        ;
    } else {
        lemma_repetitions_laid_out(direction, len as nat, reps as nat);
        assert(clip_repetition_positions(c, frame_ms) =~= Seq::new(
            reps as nat,
            |r: int| repetition_positions(direction, r, len as nat),
        ));
        if direction == AnimationDirection::PingPong {
            assert(len + (reps - 1) * (len - 1) == (len - 1) * reps + 1) by (nonlinear_arith);
        } else {
            assert(reps * len == len * reps) by (nonlinear_arith);
        }
    }
}

} // verus!

verus! {

// ---------------------------------------------------------------------------------------------
// What each cached frame and each easing run comes from
// ---------------------------------------------------------------------------------------------

/// The slots of the first `n` repetitions of the layout at place `m`: for each frame, in order,
/// the layout, the repetition and the place of the frame in that repetition.
pub open spec fn clip_frame_slots(m: int, reps: Seq<Seq<usize>>, n: int) -> Seq<(int, int, int)>
    decreases n,
{
    if n <= 0 {
        Seq::empty()
    } else {
        clip_frame_slots(m, reps, n - 1) + Seq::new(reps[n - 1].len(), |i: int| (m, n - 1, i))
    }
}

/// The slots of all the frames of the clips laid out as `layouts`, in playback order.
pub open spec fn frame_slots(layouts: Seq<ClipLayoutView>) -> Seq<(int, int, int)>
    decreases layouts.len(),
{
    if layouts.len() == 0 {
        Seq::empty()
    } else {
        let m = layouts.len() - 1;
        frame_slots(layouts.drop_last()) + clip_frame_slots(m, layouts[m].repetitions, layouts[m].repetitions.len() as int)
    }
}

/// The slots of the easing runs of the clips laid out as `layouts`: for each run, in order,
/// the layout and the repetition it eases.
pub open spec fn run_slots(layouts: Seq<ClipLayoutView>) -> Seq<(int, int)>
    decreases layouts.len(),
{
    if layouts.len() == 0 {
        Seq::empty()
    } else {
        let m = layouts.len() - 1;
        run_slots(layouts.drop_last()) + Seq::new(layouts[m].repetitions.len(), |j: int| (m, j))
    }
}

/// Whether a slot designates a place of a repetition of one of `layouts`.
pub open spec fn slot_in(layouts: Seq<ClipLayoutView>, slot: (int, int, int)) -> bool {
    let (m, j, i) = slot;
    &&& 0 <= m < layouts.len()
    &&& 0 <= j < layouts[m].repetitions.len()
    &&& 0 <= i < layouts[m].repetitions[j].len()
}

/// The end events that the frame at slot `(m, j, i)` of `layouts` reports after its markers:
/// the first frame of a clip repetition reports the end of the clip repetition played just
/// before (and, on a clip's first repetition, the end of the clip played before); other
/// frames report none.
pub open spec fn end_events_at(clips: Seq<Clip>, layouts: Seq<ClipLayoutView>, slot: (int, int, int)) -> Seq<
    AnimationCacheMessage,
> {
    let (m, j, i) = slot;
    let c = clips[layouts[m].clip];
    if i != 0 {
        Seq::empty()
    } else if j > 0 {
        seq![AnimationCacheMessage::ClipRepetitionEnd { clip_id: c.id, clip_repetition: (j - 1) as usize }]
    } else if m > 0 {
        let previous = clips[layouts[m - 1].clip];
        seq![
            AnimationCacheMessage::ClipRepetitionEnd {
                clip_id: previous.id,
                clip_repetition: (layouts[m - 1].repetitions.len() - 1) as usize,
            },
            AnimationCacheMessage::ClipEnd { clip_id: previous.id },
        ]
    } else {
        Seq::empty()
    }
}

/// Whether frame `f` is what the slot `(m, j, i)` of `layouts` shows: the clip frame at the
/// position that place `i` of repetition `j` plays, for as long as the layout's frames last,
/// reporting first exactly the markers attached to that position, then the end events of
/// that slot (see [end_events_at]).
pub open spec fn shows_slot(clips: Seq<Clip>, layouts: Seq<ClipLayoutView>, slot: (int, int, int), f: CacheFrameView) -> bool {
    let (m, j, i) = slot;
    let c = clips[layouts[m].clip];
    let p = layouts[m].repetitions[j][i];
    let markers = markers_of(c.marker_map(), p);
    &&& f.atlas_index == c.atlas_indices[p as int]
    &&& f.duration == layouts[m].frame_duration
    &&& f.clip_id == c.id
    &&& f.clip_repetition == j as usize
    &&& f.messages.len() == markers.len() + end_events_at(clips, layouts, slot).len()
    &&& forall|q: int|
        0 <= q < markers.len() ==> f.messages[q] == (AnimationCacheMessage::MarkerHit {
            marker_id: markers[q],
            clip_id: c.id,
            clip_repetition: j as usize,
        })
    &&& forall|q: int|
        0 <= q < end_events_at(clips, layouts, slot).len() ==> f.messages[markers.len() + q]
            == end_events_at(clips, layouts, slot)[q]
}

proof fn lemma_clip_frames_show_slots(
    clips: Seq<Clip>,
    layouts: Seq<ClipLayoutView>,
    m: int,
    n: int,
    previous_repetition: Option<(ClipId, usize)>,
    previous_clip: Option<ClipId>,
)
    requires
        layouts_valid(clips, layouts),
        0 <= m < layouts.len(),
        0 <= n <= layouts[m].repetitions.len(),
        previous_repetition == if m > 0 {
            Some((clips[layouts[m - 1].clip].id, (layouts[m - 1].repetitions.len() - 1) as usize))
        } else {
            None
        },
        previous_clip == if m > 0 {
            Some(clips[layouts[m - 1].clip].id)
        } else {
            None
        },
    ensures
        ({
            let v = clip_frames_view(clips[layouts[m].clip], layouts[m], n, previous_repetition, previous_clip);
            let sl = clip_frame_slots(m, layouts[m].repetitions, n);
            &&& v.len() == sl.len()
            &&& forall|f: int| 0 <= f < v.len() ==> shows_slot(clips, layouts, #[trigger] sl[f], v[f]) && slot_in(layouts, sl[f])
        }),
    decreases n,
{
    let c = clips[layouts[m].clip];
    let l = layouts[m];
    if n > 0 {
        lemma_clip_frames_show_slots(clips, layouts, m, n - 1, previous_repetition, previous_clip);
        let prev = clip_frames_view(c, l, n - 1, previous_repetition, previous_clip);
        let prev_slots = clip_frame_slots(m, l.repetitions, n - 1);
        let rep = l.repetitions[n - 1];
        let opening = opening_events(c, n - 1, previous_repetition, previous_clip);
        let added = repetition_frames_view(c, l.frame_duration, n - 1, rep, opening);
        let added_slots = Seq::new(rep.len(), |i: int| (m, n - 1, i));
        let v = clip_frames_view(c, l, n, previous_repetition, previous_clip);
        let sl = clip_frame_slots(m, l.repetitions, n);
        assert(v == prev + added);
        assert(sl == prev_slots + added_slots);
        assert forall|f: int| 0 <= f < v.len() implies shows_slot(clips, layouts, #[trigger] sl[f], v[f]) && slot_in(layouts, sl[f]) by {
            if f < prev.len() {
                assert(sl[f] == prev_slots[f]);
                assert(v[f] == prev[f]);
            } else {
                let i = f - prev.len();
                assert(sl[f] == (m, n - 1, i));
                assert(v[f] == added[i]);
                assert((rep[i] as int) < c.atlas_indices.len());
                let me = marker_events(c, rep[i], n - 1);
                let msgs = added[i].messages;
                assert(end_events_at(clips, layouts, sl[f]) == if i == 0 { opening } else { Seq::empty() });
                if i == 0 {
                    assert(msgs == me + opening);
                } else {
                    assert(msgs == me);
                }
            }
        }
    }
}

/// Every cached frame shows what its slot lays out: frame `f` of the clips laid out as
/// `layouts` shows the clip frame at the position its repetition plays at that place (in
/// every direction, reversed or not), lasts the layout's frame duration, belongs to that clip
/// and clip repetition, and reports exactly the markers attached to that position.
pub proof fn lemma_frames_show_their_slots(clips: Seq<Clip>, layouts: Seq<ClipLayoutView>)
    requires
        layouts_valid(clips, layouts),
    ensures
        merged_frames(clips, layouts).len() == frame_slots(layouts).len(),
        forall|f: int|
            0 <= f < merged_frames(clips, layouts).len() ==> shows_slot(
                clips,
                layouts,
                #[trigger] frame_slots(layouts)[f],
                merged_frames(clips, layouts)[f],
            ) && slot_in(layouts, frame_slots(layouts)[f]),
    decreases layouts.len(),
{
    if layouts.len() > 0 {
        let init = layouts.drop_last();
        let m = layouts.len() - 1;
        let l = layouts[m];
        assert(layouts_valid(clips, init)) by {
            assert forall|k: int| 0 <= k < init.len() implies init[k] == layouts[k] by {}
        }
        lemma_frames_show_their_slots(clips, init);
        lemma_clip_frames_show_slots(clips, layouts, m, l.repetitions.len() as int, last_repetition(clips, init), last_clip_id(clips, init));
        let first = merged_frames(clips, init);
        let first_slots = frame_slots(init);
        let rest = clip_frames_view(clips[l.clip], l, l.repetitions.len() as int, last_repetition(clips, init), last_clip_id(clips, init));
        let rest_slots = clip_frame_slots(m, l.repetitions, l.repetitions.len() as int);
        assert(layouts.last() == l);
        assert(merged_frames(clips, layouts) == first + rest);
        assert(frame_slots(layouts) == first_slots + rest_slots);
        assert forall|f: int| 0 <= f < merged_frames(clips, layouts).len() implies shows_slot(
            clips,
            layouts,
            #[trigger] frame_slots(layouts)[f],
            merged_frames(clips, layouts)[f],
        ) && slot_in(layouts, frame_slots(layouts)[f]) by {
            if f < first.len() {
                assert(frame_slots(layouts)[f] == first_slots[f]);
                assert(merged_frames(clips, layouts)[f] == first[f]);
                assert(shows_slot(clips, init, first_slots[f], first[f]));
                assert(slot_in(init, first_slots[f]));
                let (mm, j, i) = first_slots[f];
                assert(init[mm] == layouts[mm]);
            } else {
                assert(frame_slots(layouts)[f] == rest_slots[f - first.len()]);
                assert(merged_frames(clips, layouts)[f] == rest[f - first.len()]);
            }
        }
    }
}

} // verus!

verus! {

/// Whether an easing run eases slot `(m, j)` of `layouts`: it spans the frames of repetition `j`
/// of the layout at place `m`, with the easing that the clip of that layout sets (linear if it
/// sets none).
pub open spec fn eases_slot(clips: Seq<Clip>, layouts: Seq<ClipLayoutView>, slot: (int, int), run: EasingRun) -> bool {
    let (m, j) = slot;
    &&& 0 <= m < layouts.len()
    &&& 0 <= j < layouts[m].repetitions.len()
    &&& run.easing == match clips[layouts[m].clip].easing {
        Some(e) => e,
        None => Easing::Linear,
    }
    &&& run.length == layouts[m].repetitions[j].len() as usize
}

/// Every easing run eases one clip repetition with that clip's own easing: run `r` of the
/// clips laid out as `layouts` spans the frames of the repetition its slot designates, with
/// the easing set on the clip of that repetition.
pub proof fn lemma_runs_ease_their_clip(clips: Seq<Clip>, layouts: Seq<ClipLayoutView>)
    ensures
        easing_runs(clips, layouts).len() == run_slots(layouts).len(),
        forall|r: int|
            0 <= r < easing_runs(clips, layouts).len() ==> eases_slot(
                clips,
                layouts,
                #[trigger] run_slots(layouts)[r],
                easing_runs(clips, layouts)[r],
            ),
    decreases layouts.len(),
{
    if layouts.len() > 0 {
        let init = layouts.drop_last();
        let m = layouts.len() - 1;
        let l = layouts[m];
        lemma_runs_ease_their_clip(clips, init);
        let first = easing_runs(clips, init);
        let first_slots = run_slots(init);
        let rest = clip_runs(clips[l.clip], l);
        let rest_slots = Seq::new(l.repetitions.len(), |j: int| (m, j));
        assert(layouts.last() == l);
        assert(easing_runs(clips, layouts) == first + rest);
        assert(run_slots(layouts) == first_slots + rest_slots);
        assert forall|r: int| 0 <= r < easing_runs(clips, layouts).len() implies eases_slot(
            clips,
            layouts,
            #[trigger] run_slots(layouts)[r],
            easing_runs(clips, layouts)[r],
        ) by {
            if r < first.len() {
                assert(run_slots(layouts)[r] == first_slots[r]);
                assert(easing_runs(clips, layouts)[r] == first[r]);
                assert(eases_slot(clips, init, first_slots[r], first[r]));
                let (mm, j) = first_slots[r];
                assert(init[mm] == layouts[mm]);
            } else {
                assert(run_slots(layouts)[r] == rest_slots[r - first.len()]);
                assert(easing_runs(clips, layouts)[r] == rest[r - first.len()]);
            }
        }
    }
}

/// The layouts whose frames make up the regular frames of an animation's cache: reversed when
/// the animation plays backwards.
pub open spec fn cached_layouts(a: Animation, scaled: Seq<u32>) -> Seq<ClipLayoutView> {
    if animation_direction(a) == AnimationDirection::Backwards {
        reversed_layouts(animation_layouts(a, scaled))
    } else {
        animation_layouts(a, scaled)
    }
}

/// What the cache of an animation holds, frame by frame and run by run: each regular (resp.
/// pong) frame shows the clip frame its slot lays out, with exactly the markers attached to
/// that frame of the clip, whatever the directions; each easing run eases one clip repetition
/// with that clip's own easing.
pub proof fn lemma_cache_contents(a: Animation, scaled: Seq<u32>)
    ensures
        ({
            let clips = a.clips@;
            let layouts = cached_layouts(a, scaled);
            let pong = reversed_layouts(animation_layouts(a, scaled));
            &&& cached_frames(a, scaled).len() == frame_slots(layouts).len()
            &&& forall|f: int|
                0 <= f < cached_frames(a, scaled).len() ==> shows_slot(
                    clips,
                    layouts,
                    #[trigger] frame_slots(layouts)[f],
                    cached_frames(a, scaled)[f],
                ) && slot_in(layouts, frame_slots(layouts)[f])
            &&& cached_pong_frames(a, scaled).len() == frame_slots(pong).len()
            &&& forall|f: int|
                0 <= f < cached_pong_frames(a, scaled).len() ==> shows_slot(
                    clips,
                    pong,
                    #[trigger] frame_slots(pong)[f],
                    cached_pong_frames(a, scaled)[f],
                ) && slot_in(pong, frame_slots(pong)[f])
            &&& cached_runs(a, scaled).len() == run_slots(layouts).len()
            &&& forall|r: int|
                0 <= r < cached_runs(a, scaled).len() ==> eases_slot(
                    clips,
                    layouts,
                    #[trigger] run_slots(layouts)[r],
                    cached_runs(a, scaled)[r],
                )
            &&& cached_pong_runs(a, scaled).len() == run_slots(pong).len()
            &&& forall|r: int|
                0 <= r < cached_pong_runs(a, scaled).len() ==> eases_slot(
                    clips,
                    pong,
                    #[trigger] run_slots(pong)[r],
                    cached_pong_runs(a, scaled)[r],
                )
            &&& forall|m: int| 0 <= m < layouts.len() ==> 0 <= #[trigger] layouts[m].clip < clips.len()
            &&& forall|m: int| 0 <= m < pong.len() ==> 0 <= #[trigger] pong[m].clip < clips.len()
        }),
{
    let clips = a.clips@;
    lemma_total_duration_sum(clips);
    lemma_clip_layouts_valid(clips, played_clips(clips), a.duration, scaled);
    let layouts = animation_layouts(a, scaled);
    lemma_reversed_layouts_valid(clips, layouts);
    let pong = reversed_layouts(layouts);
    lemma_frames_show_their_slots(clips, layouts);
    lemma_frames_show_their_slots(clips, pong);
    lemma_runs_ease_their_clip(clips, layouts);
    lemma_runs_ease_their_clip(clips, pong);
}

} // verus!

verus! {

/// The frames each repetition of a clip plays, position by position: forwards `0, 1, ...,
/// len - 1`; backwards `len - 1, ..., 0`; ping-pong forwards on the first repetition, then
/// alternately backwards from `len - 2` and forwards from `1` (the turning frame is not
/// repeated). A clip whose frames last 0 ms, or that has no frame or no repetition, plays none.
pub proof fn lemma_repetition_positions_explicit(c: Clip, frame_ms: u32)
    ensures
        ({
            let reps = clip_repetition_positions(c, frame_ms);
            let len = c.atlas_indices.len() as int;
            let n = clip_repetitions(c) as int;
            &&& (frame_ms == 0 || len == 0 || n == 0) ==> reps.len() == 0
            &&& (frame_ms > 0 && len == 1 && n > 0 && clip_direction(c) == AnimationDirection::PingPong) ==> reps
                =~= seq![seq![0usize]]
            &&& (frame_ms > 0 && len > 0 && n > 0 && !(len == 1 && clip_direction(c) == AnimationDirection::PingPong))
                ==> {
                &&& reps.len() == n
                &&& forall|j: int, i: int|
                    #![trigger reps[j][i]]
                    0 <= j < n ==> match clip_direction(c) {
                        AnimationDirection::Forwards => reps[j].len() == len && (0 <= i < len ==> reps[j][i] == i),
                        AnimationDirection::Backwards => reps[j].len() == len && (0 <= i < len ==> reps[j][i] == len
                            - 1 - i),
                        AnimationDirection::PingPong => if j == 0 {
                            reps[j].len() == len && (0 <= i < len ==> reps[j][i] == i)
                        } else if j % 2 == 1 {
                            reps[j].len() == len - 1 && (0 <= i < len - 1 ==> reps[j][i] == len - 2 - i)
                        } else {
                            reps[j].len() == len - 1 && (0 <= i < len - 1 ==> reps[j][i] == i + 1)
                        },
                    }
            }
        }),
{
    let reps = clip_repetition_positions(c, frame_ms);
    let len = c.atlas_indices.len() as int;
    if frame_ms > 0 && len == 1 && clip_repetitions(c) > 0 && clip_direction(c) == AnimationDirection::PingPong {
        assert(forward_positions(1) =~= seq![0usize]);
    }
    let f = forward_positions(len as nat);
    assert(f.len() == len);
}

} // verus!

verus! {

/// A per-repetition duration is spread evenly over the clip's `n` frames, rounding down:
/// `n` frames of the duration found last at most the repetition's duration, and one
/// millisecond more each would last longer; a per-frame duration is used as is (the
/// animation's, if it sets one, overrides the clip's).
pub proof fn lemma_frame_duration_splits_repetition(
    c: Clip,
    animation_duration: Option<AnimationDuration>,
    scaled_repetition_ms: u32,
)
    requires
        c.atlas_indices.len() > 0,
        c.atlas_indices.len() <= u32::MAX,
    ensures
        ({
            let d = clip_frame_duration(c, animation_duration, scaled_repetition_ms) as int;
            let n = c.atlas_indices.len() as int;
            match animation_duration {
                None => match clip_duration(c) {
                    AnimationDuration::PerFrame(x) => d == x,
                    AnimationDuration::PerRepetition(r) => n * d <= r < n * (d + 1),
                },
                Some(AnimationDuration::PerFrame(x)) => d == x,
                Some(AnimationDuration::PerRepetition(_)) => n * d <= scaled_repetition_ms < n * (d + 1),
            }
        }),
{
    let n = c.atlas_indices.len();
    let len = n as u32;
    assert(len as int == n as int);
    let t: u32 = match animation_duration {
        None => match clip_duration(c) {
            AnimationDuration::PerRepetition(r) => r,
            _ => 0,
        },
        Some(AnimationDuration::PerRepetition(_)) => scaled_repetition_ms,
        _ => 0,
    };
    let q = t / len;
    assert(len * q <= t < len * (q + 1)) by (nonlinear_arith)
        requires
            len > 0,
            q == t / len,
    ;
}

} // verus!
