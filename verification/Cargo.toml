[package]
name = "centurion"
version = "0.1.0"
edition = "2021"
publish = false

[dependencies]
rand = "=0.8.8"
bevy = { version = "=0.18.1", default-features = false, features = ["bevy_state", "bevy_log", "bevy_ui"] }
