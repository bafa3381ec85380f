[package]
name = "bevy_rmmz_assets"
version = "0.1.0"
edition = "2021"
publish = false

[dependencies]
bevy_app = "*"
bevy_asset = "*"
bevy_ecs = "*"
bevy_reflect = "*"
serde = { version = "1", features = ["derive"] }
serde_json = "1"
postcard = { version = "1", features = ["use-std"] }
thiserror = "2"
