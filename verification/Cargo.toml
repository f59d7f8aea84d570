[package]
name = "bevy_spritesheet_animation"
version = "0.1.0"
edition = "2021"
publish = false

[dependencies]
bevy_platform = "0.17"
bevy = { version = "0.17", default-features = false, features = ["bevy_sprite", "bevy_ui", "bevy_pbr", "bevy_log"] }
serde = { version = "1", features = ["derive"] }
