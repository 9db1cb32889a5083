[package]
name = "cavegen"
version = "0.1.0"
edition = "2021"
publish = false

[dependencies]
bevy = { version = "0.15", default-features = false, features = ["bevy_render", "bevy_core_pipeline", "bevy_sprite", "bevy_asset", "multi_threaded"] }
egui = "0.29"
bytemuck = { version = "1", features = ["derive"] }
crossbeam-channel = "0.5"
