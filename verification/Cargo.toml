[package]
name = "forest_gen"
version = "0.1.0"
edition = "2021"
publish = false

[dependencies]
bevy = "0.5"
bevy_fly_camera = "0.7"
noise = "0.7"
