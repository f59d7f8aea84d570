use std::sync::Arc;

use bevy_spritesheet_animation::animation::{
    Animation, AnimationDirection, AnimationDuration, AnimationRepeat,
};
use bevy_spritesheet_animation::animator::cache::{
    fits_in_milliseconds, played_clip_data, total_duration_ms, AnimationCache,
};
use bevy_spritesheet_animation::animator::instance::{AnimationInstance, PlaybackEnd, PlaybackStep};
use bevy_spritesheet_animation::animator::iterator::AnimationIterator;
use bevy_spritesheet_animation::clip::{Clip, ClipId};
use bevy_spritesheet_animation::components::generator::ComponentGenerator;
use bevy_spritesheet_animation::components::spritesheet_animation::AnimationProgress;
use bevy_spritesheet_animation::easing::Easing;
use bevy_spritesheet_animation::events::{Marker, PlaybackEvent};
use bevy_spritesheet_animation::plugin::{AnimationSystemSet, Sprite3dSystemSet, SpritesheetAnimationPlugin};
use bevy_spritesheet_animation::spritesheet::Spritesheet;
use bevy_spritesheet_animation::stage::AnimationStage;

fn cache_of(animation: &Animation) -> AnimationCache {
    let data = played_clip_data(animation);
    let scaled: Vec<u32> = data.iter().map(|_| 0).collect();
    AnimationCache::new(animation, &scaled).cache
}

fn atlas_of(frames: &[bevy_spritesheet_animation::animator::cache::CacheFrame]) -> Vec<usize> {
    frames.iter().map(|f| f.atlas_index).collect()
}

fn three_clips(direction: AnimationDirection) -> Animation {
    let a = Clip::from_frames(ClipId::from_value(1), vec![0, 1, 2]).with_repetitions(2);
    let b = Clip::from_frames(ClipId::from_value(2), vec![5, 6]).with_direction(AnimationDirection::Backwards);
    let c = Clip::from_frames(ClipId::from_value(3), vec![7, 8, 9]).with_direction(AnimationDirection::PingPong).with_repetitions(2);
    Animation::from_clips(vec![a, b, c]).with_direction(direction)
}

#[test]
fn backwards_animation_plays_the_forward_frames_in_reverse() {
    let forwards = cache_of(&three_clips(AnimationDirection::Forwards));
    let backwards = cache_of(&three_clips(AnimationDirection::Backwards));

    let mut expected = atlas_of(&forwards.frames);
    expected.reverse();
    assert_eq!(atlas_of(&forwards.frames), vec![0, 1, 2, 0, 1, 2, 6, 5, 7, 8, 9, 8, 7]);
    assert_eq!(atlas_of(&backwards.frames), expected);
}

#[test]
fn pong_frames_are_the_regular_frames_reversed() {
    let cache = cache_of(&three_clips(AnimationDirection::PingPong));
    let pong = cache.frames_pong.as_ref().unwrap();

    let mut expected = atlas_of(&cache.frames);
    expected.reverse();
    assert_eq!(atlas_of(pong), expected);
    assert_eq!(pong.len(), cache.frames.len());
}

fn one_second_frames() -> Arc<AnimationCache> {
    let clip = Clip::from_frames(ClipId::from_value(1), vec![4, 5, 6]).with_duration(AnimationDuration::PerFrame(100));
    Arc::new(cache_of(&Animation::from_clip(clip).with_repetitions(AnimationRepeat::Times(2))))
}

fn played(steps: &[PlaybackStep]) -> (Vec<usize>, Vec<PlaybackEvent>) {
    let mut atlas = Vec::new();
    let mut events = Vec::new();
    for step in steps {
        events.extend(step.events());
        if let PlaybackStep::Play(frame, _) = step {
            atlas.push(frame.atlas_index);
        }
    }
    (atlas, events)
}

#[test]
fn playback_does_not_depend_on_how_time_is_split() {
    let cache = one_second_frames();

    let (mut whole, _, _) = AnimationInstance::start(cache.clone(), AnimationProgress::default());
    let at_once = whole.advance(450_000_000);

    let (mut split, _, _) = AnimationInstance::start(cache, AnimationProgress::default());
    let mut in_parts = split.advance(50_000_000);
    in_parts.extend(split.advance(150_000_000));
    in_parts.extend(split.advance(250_000_000));

    let (atlas_once, events_once) = played(&at_once);
    let (atlas_parts, events_parts) = played(&in_parts);
    assert_eq!(atlas_once, vec![5, 6, 4, 5]);
    assert_eq!(atlas_once, atlas_parts);
    assert_eq!(events_once, events_parts);
    assert_eq!(whole.accumulated_nanos(), split.accumulated_nanos());
    assert_eq!(whole.accumulated_nanos(), 50_000_000);

    // Once settled, an update with no elapsed time plays nothing
    assert!(whole.advance(0).is_empty());
    assert_eq!(whole.accumulated_nanos(), 50_000_000);
}

#[test]
fn a_finished_animation_plays_nothing_more() {
    let cache = one_second_frames();
    let (mut instance, shown, _) = AnimationInstance::start(cache, AnimationProgress::default());
    assert_eq!(shown.unwrap().0.atlas_index, 4);

    let steps = instance.advance(10_000_000_000);
    let (atlas, events) = played(&steps);
    assert_eq!(atlas, vec![5, 6, 4, 5, 6]);
    assert!(matches!(
        steps.last(),
        Some(PlaybackStep::End(PlaybackEnd { clip_id, clip_repetition: 0, animation_repetition: 1 }))
            if *clip_id == ClipId::from_value(1)
    ));
    assert_eq!(
        events[events.len() - 4..].to_vec(),
        vec![
            PlaybackEvent::ClipRepetitionEnd { clip_id: ClipId::from_value(1), clip_repetition: 0 },
            PlaybackEvent::ClipEnd { clip_id: ClipId::from_value(1) },
            PlaybackEvent::AnimationRepetitionEnd { animation_repetition: 1 },
            PlaybackEvent::AnimationEnd,
        ]
    );

    assert!(instance.advance(10_000_000_000).is_empty());
    assert!(instance.needs_restart(AnimationProgress::default()));
}

#[test]
fn seeking_then_playing_shows_the_frame_sought() {
    let cache = one_second_frames();
    let mut iterator = AnimationIterator::new(cache.clone());
    assert!(iterator.to(AnimationProgress::with_frame_repetition(2, 1)));
    let (frame, progress) = iterator.next().unwrap();
    assert_eq!(frame.atlas_index, 6);
    assert_eq!(progress, AnimationProgress::with_frame_repetition(2, 1));
    assert!(frame.events.is_empty());

    // A repetition the animation does not have is refused
    assert!(!iterator.to(AnimationProgress::with_frame_repetition(0, 2)));

    let (mut instance, _, _) = AnimationInstance::start(cache, AnimationProgress::default());
    let (shown, progress) = instance.reconcile(AnimationProgress::with_frame(1));
    assert_eq!(shown.unwrap().0.atlas_index, 5);
    assert_eq!(progress, AnimationProgress::with_frame(1));
    assert_eq!(instance.accumulated_nanos(), 0);
}

#[test]
fn overflowing_durations_are_detected() {
    let clip = Clip::from_frames(ClipId::from_value(1), vec![0, 1, 2]).with_duration(AnimationDuration::PerFrame(u32::MAX));
    assert!(!fits_in_milliseconds(&Animation::from_clip(clip)));

    let clip = Clip::from_frames(ClipId::from_value(1), vec![0, 1, 2]).with_duration(AnimationDuration::PerFrame(10));
    let animation = Animation::from_clips(vec![clip.duplicate(), clip.with_repetitions(0)]);
    assert!(fits_in_milliseconds(&animation));
    let data = played_clip_data(&animation);
    assert_eq!(data.len(), 1);
    assert_eq!(total_duration_ms(&data, &animation), 30);
}

#[test]
fn clips_start_without_markers_and_copies_keep_them() {
    let mut clip = Clip::empty(ClipId::from_value(3));
    assert_eq!(clip.markers().len(), 0);
    assert_eq!(clip.markers_at(0), Vec::<Marker>::new());

    clip.add_marker(Marker::from_value(1), 4);
    clip.add_marker(Marker::from_value(2), 4);
    let copy = clip.duplicate();
    assert_eq!(copy.markers_at(4), vec![Marker::from_value(1), Marker::from_value(2)]);
    assert_eq!(copy.id(), ClipId::from_value(3));
}

#[test]
fn atlas_grid_splits_the_image_evenly() {
    let sheet = Spritesheet::new(8, 4);
    let grid = sheet.with_size_hint(770, 400).atlas_grid();
    assert_eq!(grid.cell_width, 96);
    assert_eq!(grid.cell_height, 100);
    assert_eq!(grid.columns, 8);
    assert_eq!(grid.rows, 4);

    let generator = ComponentGenerator::new(&sheet, 10, 20);
    assert_eq!(generator.image_width(), 10);
    assert_eq!(generator.image_height(), 20);
    assert_eq!(generator.spritesheet(), sheet);
}

#[test]
fn stages_override_only_what_is_set() {
    let mut stage = AnimationStage::from_clip(ClipId::from_value(4));
    stage.set_repeat(3).set_easing(Easing::Linear);
    assert_eq!(*stage.clip_id(), ClipId::from_value(4));
    assert_eq!(*stage.repeat(), Some(3));
    assert_eq!(*stage.easing(), Some(Easing::Linear));
    assert!(stage.duration().is_none());
    assert!(stage.direction().is_none());

    let full = AnimationStage::new(
        ClipId::from_value(5),
        Some(AnimationDuration::PerFrame(10)),
        None,
        Some(AnimationDirection::PingPong),
        None,
    );
    assert_eq!(*full.direction(), Some(AnimationDirection::PingPong));
    assert_eq!(AnimationStage::from(ClipId::from_value(6)), AnimationStage::from_clip(ClipId::from_value(6)));
}

#[test]
fn plugin_markers_are_plain_values() {
    assert_eq!(AnimationSystemSet, AnimationSystemSet::default());
    assert_eq!(Sprite3dSystemSet, Sprite3dSystemSet::default());
    assert_eq!(SpritesheetAnimationPlugin, SpritesheetAnimationPlugin::default());
}

#[test]
fn a_second_synchronisation_changes_nothing() {
    let cache = one_second_frames();

    let (instance, steps, progress) =
        AnimationInstance::sync(None, cache.clone(), false, AnimationProgress::with_frame_repetition(1, 1));
    assert_eq!(steps.len(), 1);
    assert_eq!(progress, AnimationProgress::with_frame_repetition(1, 1));

    let (instance, steps, again) = AnimationInstance::sync(Some(instance), cache.clone(), false, progress);
    assert!(steps.is_empty());
    assert_eq!(again, progress);
    assert_eq!(instance.accumulated_nanos(), 0);

    // An invalid request is answered with the progress of the frame shown
    let (_, steps, answered) =
        AnimationInstance::sync(Some(instance), cache, false, AnimationProgress::with_frame(7));
    assert!(steps.is_empty());
    assert_eq!(answered, AnimationProgress::with_frame_repetition(1, 1));
}

#[test]
fn switching_restarts_from_the_requested_progress() {
    let first = one_second_frames();
    let clip = Clip::from_frames(ClipId::from_value(2), vec![20, 21]);
    let second = Arc::new(cache_of(&Animation::from_clip(clip)));

    let (instance, _, _) = AnimationInstance::sync(None, first, false, AnimationProgress::default());
    let (_, steps, progress) = AnimationInstance::sync(Some(instance), second, true, AnimationProgress::default());

    let (atlas, _) = played(&steps);
    assert_eq!(atlas, vec![20]);
    assert_eq!(progress, AnimationProgress::default());
}

#[test]
fn progress_wraps_around_each_repetition() {
    let mut iterator = AnimationIterator::new(one_second_frames());
    let mut progresses = Vec::new();
    while let Some((_, progress)) = iterator.next() {
        progresses.push((progress.frame, progress.repetition));
    }
    assert_eq!(progresses, vec![(0, 0), (1, 0), (2, 0), (0, 1), (1, 1), (2, 1)]);
    assert_eq!(iterator.next_progress(), AnimationProgress::with_frame_repetition(3, 2));

    // Ping-pong animations do not repeat their turning frame
    let clip = Clip::from_frames(ClipId::from_value(1), vec![4, 5, 6]);
    let animation = Animation::from_clip(clip)
        .with_direction(AnimationDirection::PingPong)
        .with_repetitions(AnimationRepeat::Times(3));
    let mut iterator = AnimationIterator::new(Arc::new(cache_of(&animation)));
    let mut atlas = Vec::new();
    while let Some((frame, _)) = iterator.next() {
        atlas.push(frame.atlas_index);
    }
    assert_eq!(atlas, vec![4, 5, 6, 5, 4, 5, 6]);
}

#[test]
fn synchronisation_is_refused_only_where_the_repetition_counter_would_overflow() {
    let cache = one_second_frames();
    let looping = Arc::new(cache_of(&Animation::from_clip(Clip::from_frames(ClipId::from_value(1), vec![4, 5]))));

    // Times(2): repetition usize::MAX is no repetition of the animation, so it is simply refused
    assert!(AnimationInstance::sync_is_ready(&None, &cache, false, AnimationProgress::with_frame_repetition(2, usize::MAX)));
    // Loop: the first frame of repetition usize::MAX can be played, its last frame cannot
    assert!(AnimationInstance::sync_is_ready(&None, &looping, false, AnimationProgress::with_frame_repetition(0, usize::MAX)));
    assert!(!AnimationInstance::sync_is_ready(&None, &looping, false, AnimationProgress::with_frame_repetition(1, usize::MAX)));

    let data = played_clip_data(&Animation::from_clip(
        Clip::from_frames(ClipId::from_value(1), vec![0]).with_duration(AnimationDuration::PerRepetition(1000)).with_repetitions(3),
    ));
    assert_eq!(data[0].duration_with_repetitions_ms, 3000);
}

#[test]
fn a_looping_animation_plays_forever() {
    let looping = Arc::new(cache_of(&Animation::from_clip(Clip::from_frames(ClipId::from_value(1), vec![4, 5, 6]))));
    let mut iterator = AnimationIterator::new(looping);
    let mut previous_repetition = 0;
    for k in 0..3000usize {
        let (frame, progress) = iterator.next().expect("a looping animation never ends");
        assert_eq!(frame.atlas_index, 4 + k % 3);
        assert_eq!(progress.frame, k % 3);
        assert_eq!(progress.repetition, k / 3);
        assert!(progress.repetition >= previous_repetition && progress.repetition <= previous_repetition + 1);
        previous_repetition = progress.repetition;
    }
}

#[test]
fn an_animation_repeated_zero_times_plays_nothing_even_with_overflowing_clips() {
    let clip = Clip::from_frames(ClipId::from_value(1), vec![0, 1]).with_duration(AnimationDuration::PerFrame(u32::MAX));
    let animation = Animation::from_clip(clip).with_repetitions(AnimationRepeat::Times(0));
    assert!(!fits_in_milliseconds(&animation));
    let cache = AnimationCache::new(&animation, &Vec::new()).cache;
    assert!(cache.frames.is_empty());
    assert!(cache.frames_pong.is_none());
}
