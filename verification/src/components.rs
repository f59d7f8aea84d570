//! Per-entity playback data, and the data of animation-ready components.

pub mod generator;
pub mod spritesheet_animation;
