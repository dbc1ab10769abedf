[package]
name = "dino_jump"
version = "0.1.0"
edition = "2021"
publish = false

[dependencies]
bevy = { version = "=0.17.3", default-features = false, features = ["std", "async_executor", "multi_threaded", "bevy_log", "bevy_asset", "bevy_color", "bevy_image", "bevy_camera", "bevy_sprite", "bevy_text", "default_font", "bevy_window", "png"] }
rand = "=0.8.8"
