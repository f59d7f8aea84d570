//! Spritesheet animation: animations built from the cells of a spritesheet,
//! flattened into per-frame caches and played back frame by frame.
//!
//! The engine glue (ECS systems, assets, rendering) lives outside this crate's
//! verified core; everything that decides which frame plays, for how long and
//! which events it emits is here.

pub mod animation;
pub mod animator;
pub mod builder;
pub mod clip;
pub mod components;
pub mod easing;
pub mod events;
pub mod library;
pub mod plugin;
pub mod spritesheet;
pub mod stage;
