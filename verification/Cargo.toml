[package]
name = "luau_behavior"
version = "0.1.0"
edition = "2021"
publish = false

[dependencies]
bevy_app = "0.15"
bevy_ecs = "0.15"
bevy_input = "0.15"
bevy_math = "0.15"
bevy_time = "0.15"
bevy_utils = "0.15"
crossbeam-channel = "0.5"
mlua = { version = "0.10", features = ["luau", "send"] }
notify = "6"
