[package]
name = "mujoco_model"
version = "0.1.0"
edition = "2021"
publish = false

[dependencies]
roxmltree = "=0.20.0"
bevy = { version = "0.15", default-features = false, features = ["bevy_asset", "bevy_pbr", "bevy_state"] }
avian3d = "0.2"
serde = { version = "1", features = ["derive"] }
thiserror = "*"
