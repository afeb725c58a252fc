[package]
name = "terra_firma"
version = "0.1.0"
edition = "2021"
publish = false

[dependencies]
tiled = "0.14"
bevy = { version = "0.16", default-features = false, features = ["std", "async_executor", "bevy_asset", "bevy_state", "bevy_log", "bevy_window", "bevy_render", "bevy_sprite", "bevy_core_pipeline"] }
bevy_ecs_tilemap = "0.16"
bevy_ecs_tiled = { version = "0.7", features = ["avian"] }
avian2d = { version = "0.3", default-features = false, features = ["2d", "f32", "parry-f32"] }
