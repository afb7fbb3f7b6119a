[package]
name = "bevy_timeline"
version = "0.1.0"
edition = "2021"
publish = false

[dependencies]
serde = { version = "=1.0.229", features = ["derive"] }
serde_json = "=1.0.154"
thiserror = "=2.0.21"
bevy_app = "=0.16.1"
bevy_ecs = "=0.16.1"
bevy_asset = "=0.16.1"
bevy_reflect = "=0.16.1"
bevy_math = { version = "=0.16.1", features = ["serialize"] }
bevy_transform = "=0.16.1"
bevy_time = "=0.16.1"
bevy_color = { version = "=0.16.2", features = ["serialize"] }
bevy_pbr = { version = "=0.16.1", default-features = false }
bevy_render = "=0.16.1"
bevy_core_pipeline = "=0.16.1"
bevy_image = "=0.16.1"
bevy_input = "=0.16.1"
bevy_window = "=0.16.1"
