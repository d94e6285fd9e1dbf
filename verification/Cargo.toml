[package]
name = "voxel_game"
version = "0.1.0"
edition = "2021"
publish = false

[dependencies]
anyhow = "1"
bytemuck = { version = "1", features = ["derive"] }
cgmath = "0.18"
env_logger = "*"
log = "0.4"
pollster = "*"
wgpu = "*"
winit = "0.30"
