use vstd::prelude::*;

verus! {

/// The set that holds the systems that update animations.
///
/// The engine layer schedules the playback systems in this set so that users
/// can order their own systems relative to animation updates.
#[derive(Debug, Clone, Copy, PartialEq, Eq, Hash, Default, Structural)]
pub struct AnimationSystemSet;

/// The set that holds the systems that manage 3D sprites.
///
/// It runs after `AnimationSystemSet`, so that 3D sprites show the frame that
/// the animations selected in the same update.
#[derive(Debug, Clone, Copy, PartialEq, Eq, Hash, Default, Structural)]
pub struct Sprite3dSystemSet;

/// The spritesheet animation plugin that the engine layer installs in apps.
///
/// It registers the animation assets, the animator that plays them, the
/// animation events and the systems of `AnimationSystemSet` and
/// `Sprite3dSystemSet`.
#[derive(Debug, Clone, Copy, PartialEq, Eq, Hash, Default, Structural)]
pub struct SpritesheetAnimationPlugin;

} // verus!
