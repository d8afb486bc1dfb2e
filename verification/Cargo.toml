[package]
name = "engine_assets"
version = "0.1.0"
edition = "2021"
publish = false

[dependencies]
uuid = "*"
slotmap = "*"
ron = "*"
meshopt = "*"
serde = { version = "*", features = ["derive"] }
toml = "*"
walkdir = "*"
bytemuck = { version = "*", features = ["derive"] }
glam = "*"
bevy_ecs = { version = "*", default-features = false, features = ["std"] }
asset-importer = "*"
