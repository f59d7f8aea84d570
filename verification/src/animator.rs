//! Playback of animations: per-frame caches, frame iteration and per-entity playback state.

pub mod cache;
pub mod iterator;
pub mod instance;
