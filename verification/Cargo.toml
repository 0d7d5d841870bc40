[package]
name = "bevy_action_animation"
version = "0.1.0"
edition = "2021"
publish = false

[dependencies]
rand = "0.8"
ron = "0.8"
serde = { version = "1", features = ["derive"] }
bevy_app = "0.10"
bevy_asset = "0.10"
bevy_ecs = "0.10"
bevy_reflect = "0.10"
bevy_time = "0.10"
bevy_action = "*"
