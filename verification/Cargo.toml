[package]
name = "voxel_realm"
version = "0.1.0"
edition = "2021"
publish = false

[dependencies]
wgpu = "23"
winit = "0.30"
glyphon = "0.7"
cgmath = "0.18"
bytemuck = { version = "1", features = ["derive"] }
noise = "0.9"
crossbeam-channel = "0.5"
bincode = "1"
serde = { version = "1", features = ["derive"] }
anyhow = "1"
spin_sleep = "1"
instant = "0.1"
pollster = "0.4"
env_logger = "0.11"
log = "0.4"
image = { version = "0.25", default-features = false, features = ["png"] }
