use std::sync::Arc;

use bevy_spritesheet_animation::animation::AnimationDirection;
use bevy_spritesheet_animation::animator::cache::{AnimationCache, CacheFrame};
use bevy_spritesheet_animation::animator::instance::{AnimationInstance, PlaybackStep};
use bevy_spritesheet_animation::clip::ClipId;
use bevy_spritesheet_animation::components::spritesheet_animation::AnimationProgress;
use bevy_spritesheet_animation::events::PlaybackEvent;

const MS: u128 = 1_000_000;

fn frame(atlas_index: usize, duration: u32) -> CacheFrame {
    CacheFrame { atlas_index, duration, clip_id: ClipId::from_value(1), clip_repetition: 0, messages: Vec::new() }
}

fn cache(frames: Vec<CacheFrame>, repetitions: Option<usize>) -> Arc<AnimationCache> {
    Arc::new(AnimationCache {
        frames,
        frames_pong: None,
        repetitions,
        animation_direction: AnimationDirection::Forwards,
    })
}

/// Starts playback of `cache` and returns the instance with the atlas index shown.
fn start(cache: Arc<AnimationCache>) -> (AnimationInstance, usize) {
    let progress = AnimationProgress::default();
    assert!(AnimationInstance::sync_is_ready(&None, &cache, true, progress));
    let (instance, steps, _) = AnimationInstance::sync(None, cache, true, progress);
    let mut shown = usize::MAX;
    for step in steps {
        if let PlaybackStep::Play(f, _) = step {
            shown = f.atlas_index;
        }
    }
    (instance, shown)
}

/// The atlas indices shown by the steps, and the events they report.
fn played(steps: Vec<PlaybackStep>) -> (Vec<usize>, Vec<PlaybackEvent>) {
    let mut indices = Vec::new();
    let mut events = Vec::new();
    for step in steps {
        events.extend(step.events());
        if let PlaybackStep::Play(f, _) = step {
            indices.push(f.atlas_index);
        }
    }
    (indices, events)
}

#[test]
fn a_first_frame_of_zero_ms_is_passed_as_soon_as_time_passes() {
    let (mut instance, shown) = start(cache(vec![frame(4, 0), frame(5, 100), frame(6, 100)], None));
    assert_eq!(shown, 4);

    let (indices, _) = played(instance.advance(1000 * MS));
    assert_eq!(indices[0], 5);

    let (mut instance, _) = start(cache(vec![frame(4, 0), frame(5, 100), frame(6, 100)], None));
    assert_eq!(played(instance.advance(MS)).0, vec![5]);
    assert_eq!(played(instance.advance(100 * MS)).0, vec![6]);
    assert_eq!(played(instance.advance(99 * MS)).0, vec![]);
    let (indices, events) = played(instance.advance(MS));
    assert_eq!(indices, vec![4, 5]);
    assert!(events.contains(&PlaybackEvent::AnimationRepetitionEnd { animation_repetition: 0 }));
}

#[test]
fn no_time_no_step_even_on_a_zero_ms_frame() {
    let (mut instance, _) = start(cache(vec![frame(4, 0), frame(5, 100)], None));
    assert_eq!(played(instance.advance(0)).0, vec![]);
}

#[test]
fn a_looping_animation_whose_repetitions_last_zero_ms_stays_on_its_frame() {
    let (mut instance, shown) = start(cache(vec![frame(4, 0), frame(5, 0)], None));
    assert_eq!(shown, 4);
    for _ in 0..10 {
        assert_eq!(played(instance.advance(100 * MS)).0, vec![]);
    }
}

#[test]
fn a_finite_animation_of_zero_ms_frames_plays_to_its_end() {
    let (mut instance, shown) = start(cache(vec![frame(4, 0), frame(5, 0)], Some(2)));
    assert_eq!(shown, 4);
    let (indices, events) = played(instance.advance(MS));
    assert_eq!(indices, vec![5, 4, 5]);
    assert!(events.contains(&PlaybackEvent::AnimationEnd));
    assert_eq!(played(instance.advance(1000 * MS)).0, vec![]);
}
