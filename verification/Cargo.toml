[package]
name = "keyframe_animation"
version = "0.1.0"
edition = "2021"
publish = false

[dependencies]
bevy_app = "0.8"
