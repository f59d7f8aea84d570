use bevy_spritesheet_animation::animation::Animation;
use bevy_spritesheet_animation::clip::{Clip, ClipId};
use bevy_spritesheet_animation::library::{AnimationLibrary, LibraryError};

fn s(text: &str) -> String {
    text.to_string()
}

#[test]
fn animation_ids_should_be_unique_after_deregistration() {
    let mut library = AnimationLibrary::new();

    // First animation registration.
    let clip1 = Clip::from_frames(ClipId::dummy(), vec![0]);
    let clip_id1 = library.register_clip(clip1);
    let anim1 = Animation::from_clip(Clip::from_frames(clip_id1, vec![0]));
    let anim_id1 = library.register_animation(anim1);

    // Deregister the animation and its clips.
    library.deregister_animation(anim_id1);
    assert!(library.get_animation(anim_id1).is_none());
    assert!(library.get_clip(clip_id1).is_none());

    // Second animation registration should get a unique ID.
    let clip2 = Clip::from_frames(ClipId::dummy(), vec![1]);
    let clip_id2 = library.register_clip(clip2);
    let anim2 = Animation::from_clip(Clip::from_frames(clip_id2, vec![1]));
    let anim_id2 = library.register_animation(anim2);

    assert_ne!(anim_id1, anim_id2, "Each animation should receive a unique ID even after deregistration");
}

#[test]
fn clip_ids_should_be_unique_after_deregistration() {
    let mut library = AnimationLibrary::new();

    // First clip registration.
    let clip1 = Clip::from_frames(ClipId::dummy(), vec![0]);
    let clip_id1 = library.register_clip(clip1);

    // Deregister the clip.
    library.deregister_clip(clip_id1);

    // Second clip registration should get a unique ID.
    let clip2 = Clip::from_frames(ClipId::dummy(), vec![1]);
    let clip_id2 = library.register_clip(clip2);

    assert_ne!(clip_id1, clip_id2, "Each clip should receive a unique ID even after deregistration");
}

#[test]
fn clips() {
    let mut library = AnimationLibrary::new();

    // Create a first clip

    let clip1 = Clip::from_frames(ClipId::dummy(), vec![]);
    let clip1_id = library.register_clip(clip1);

    assert!(!library.is_clip_name(clip1_id, &s("first")));
    assert_eq!(library.get_clip_name(clip1_id), None);
    assert_eq!(library.clip_with_name(&s("first")), None);
    assert_eq!(library.clip_names().len(), 0);

    // Name it

    assert!(library.name_clip(clip1_id, s("first")).is_ok());

    assert!(library.is_clip_name(clip1_id, &s("first")));
    assert_eq!(library.get_clip_name(clip1_id), Some(&s("first")));
    assert_eq!(library.clip_with_name(&s("first")), Some(clip1_id));

    assert_eq!(library.clip_names().len(), 1);
    assert_eq!(library.clip_names().get(&clip1_id.value).map(AsRef::as_ref), Some("first"));

    // Name it again, replacing the old name

    assert!(library.name_clip(clip1_id, s("first again")).is_ok());

    assert!(library.is_clip_name(clip1_id, &s("first again")));
    assert_eq!(library.get_clip_name(clip1_id), Some(&s("first again")));
    assert_eq!(library.clip_with_name(&s("first again")), Some(clip1_id));

    assert_eq!(library.clip_names().len(), 1);
    assert_eq!(library.clip_names().get(&clip1_id.value).map(AsRef::as_ref), Some("first again"));

    assert!(library.name_clip(clip1_id, s("first")).is_ok());

    // Give it the same names again, this is a no-op

    assert!(library.name_clip(clip1_id, s("first")).is_ok());

    // Create another clip and reuse the name, this should not work

    let clip2 = Clip::from_frames(ClipId::dummy(), vec![]);
    let clip2_id = library.register_clip(clip2);

    assert!(matches!(library.name_clip(clip2_id, s("first")), Err(LibraryError::NameAlreadyTaken)));

    assert!(!library.is_clip_name(clip2_id, &s("first")));
    assert_eq!(library.get_clip_name(clip2_id), None);

    assert_eq!(library.clip_with_name(&s("first")), Some(clip1_id));
    assert!(library.is_clip_name(clip1_id, &s("first")));
    assert_eq!(library.get_clip_name(clip1_id), Some(&s("first")));

    assert_eq!(library.clip_names().len(), 1);
}

#[test]
fn animations() {
    let mut library = AnimationLibrary::new();

    // Create a first animation

    let animation1 = Animation::from_clips(vec![]);
    let animation1_id = library.register_animation(animation1);

    assert!(!library.is_animation_name(animation1_id, &s("first")));
    assert_eq!(library.get_animation_name(animation1_id), None);
    assert_eq!(library.animation_with_name(&s("first")), None);
    assert_eq!(library.animation_names().len(), 0);

    // Name it

    assert!(library.name_animation(animation1_id, s("first")).is_ok());

    assert!(library.is_animation_name(animation1_id, &s("first")));
    assert_eq!(library.get_animation_name(animation1_id), Some(&s("first")));
    assert_eq!(library.animation_with_name(&s("first")), Some(animation1_id));

    assert_eq!(library.animation_names().len(), 1);
    assert_eq!(library.animation_names().get(&animation1_id.value).map(AsRef::as_ref), Some("first"));

    // Name it again, replacing the old name

    assert!(library.name_animation(animation1_id, s("first again")).is_ok());

    assert!(library.is_animation_name(animation1_id, &s("first again")));
    assert_eq!(library.get_animation_name(animation1_id), Some(&s("first again")));
    assert_eq!(library.animation_with_name(&s("first again")), Some(animation1_id));

    assert_eq!(library.animation_names().len(), 1);
    assert_eq!(
        library.animation_names().get(&animation1_id.value).map(AsRef::as_ref),
        Some("first again")
    );

    assert!(library.name_animation(animation1_id, s("first")).is_ok());

    // Give it the same names again, this is a no-op

    assert!(library.name_animation(animation1_id, s("first")).is_ok());

    // Create another animation and reuse the name, this should not work

    let anim2 = Animation::from_clips(vec![]);
    let anim2_id = library.register_animation(anim2);

    assert!(matches!(library.name_animation(anim2_id, s("first")), Err(LibraryError::NameAlreadyTaken)));

    assert!(!library.is_animation_name(anim2_id, &s("first")));
    assert_eq!(library.get_animation_name(anim2_id), None);

    assert_eq!(library.animation_with_name(&s("first")), Some(animation1_id));
    assert!(library.is_animation_name(animation1_id, &s("first")));
    assert_eq!(library.get_animation_name(animation1_id), Some(&s("first")));

    assert_eq!(library.animation_names().len(), 1);
}

#[test]
fn names_markers() {
    let mut library = AnimationLibrary::new();

    // Create a first marker

    let marker1 = library.new_marker();

    assert!(!library.is_marker_name(marker1, &s("first")));
    assert_eq!(library.get_marker_name(marker1), None);
    assert_eq!(library.marker_with_name(&s("first")), None);
    assert_eq!(library.marker_names().len(), 0);

    // Name it

    assert!(library.name_marker(marker1, s("first")).is_ok());

    assert!(library.is_marker_name(marker1, &s("first")));
    assert_eq!(library.get_marker_name(marker1), Some(&s("first")));
    assert_eq!(library.marker_with_name(&s("first")), Some(marker1));

    assert_eq!(library.marker_names().len(), 1);
    assert_eq!(library.marker_names().get(&marker1.value).map(AsRef::as_ref), Some("first"));

    // Name it again, replacing the old name

    assert!(library.name_marker(marker1, s("first again")).is_ok());

    assert!(library.is_marker_name(marker1, &s("first again")));
    assert_eq!(library.get_marker_name(marker1), Some(&s("first again")));
    assert_eq!(library.marker_with_name(&s("first again")), Some(marker1));

    assert_eq!(library.marker_names().len(), 1);
    assert_eq!(library.marker_names().get(&marker1.value).map(AsRef::as_ref), Some("first again"));

    assert!(library.name_marker(marker1, s("first")).is_ok());

    // Give it the same names again, this is a no-op

    assert!(library.name_marker(marker1, s("first")).is_ok());

    // Create another marker and reuse the name, this should not work

    let marker2 = library.new_marker();

    assert!(matches!(library.name_marker(marker2, s("first")), Err(LibraryError::NameAlreadyTaken)));

    assert!(!library.is_marker_name(marker2, &s("first")));
    assert_eq!(library.get_marker_name(marker2), None);

    assert_eq!(library.marker_with_name(&s("first")), Some(marker1));
    assert!(library.is_marker_name(marker1, &s("first")));
    assert_eq!(library.get_marker_name(marker1), Some(&s("first")));

    assert_eq!(library.marker_names().len(), 1);
}

#[test]
fn identifiers_are_handed_out_in_order_across_kinds() {
    let mut library = AnimationLibrary::new();

    let clip_id = library.register_clip(Clip::from_frames(ClipId::dummy(), vec![3]));
    let marker = library.new_marker();
    let animation_id = library.register_animation(Animation::from_clips(vec![]));

    assert_eq!(clip_id.value, 0);
    assert_eq!(marker.value, 1);
    assert_eq!(animation_id.value, 2);
    assert_eq!(library.clips().len(), 1);
    assert_eq!(library.get_clip(clip_id).unwrap().atlas_indices(), [3]);
    assert!(library.markers().contains(&1));
    assert_eq!(library.animations().len(), 1);
}

#[test]
fn deregistering_a_clip_forgets_its_name() {
    let mut library = AnimationLibrary::new();

    let clip_id = library.register_clip(Clip::from_frames(ClipId::dummy(), vec![0]));
    assert!(library.name_clip(clip_id, s("walk")).is_ok());
    library.deregister_clip(clip_id);

    assert_eq!(library.clip_with_name(&s("walk")), None);
    assert_eq!(library.get_clip_name(clip_id), None);

    // The name is free again
    let other = library.register_clip(Clip::from_frames(ClipId::dummy(), vec![1]));
    assert!(library.name_clip(other, s("walk")).is_ok());
    assert_eq!(library.clip_with_name(&s("walk")), Some(other));
}
