[package]
name = "shrinkz"
version = "0.1.0"
edition = "2021"
publish = false

[dependencies]
bevy = { version = "=0.19.1", default-features = false, features = ["bevy_window", "bevy_ui", "bevy_text", "bevy_sprite", "bevy_render", "bevy_core_pipeline", "default_font", "std"] }
