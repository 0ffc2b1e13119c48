[package]
name = "voxel_world"
version = "0.1.0"
edition = "2021"
publish = false

[dependencies]
noise = "0.9"
rand = "0.8"
splines = "4"
serde = { version = "1", features = ["derive"] }
serde_json = "1"
