[package]
name = "phototaxis"
version = "0.1.0"
edition = "2021"
publish = false

[dependencies]
bevy = { version = "0.16", default-features = false, features = ["std", "bevy_asset", "bevy_core_pipeline", "bevy_pbr", "bevy_render", "bevy_window"] }
bevy_rand = { version = "0.10", features = ["wyrand"] }
console_error_panic_hook = "0.1"
rand = "0.9"
