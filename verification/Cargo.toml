[package]
name = "collision_engine"
version = "0.1.0"
edition = "2021"
publish = false

[dependencies]
anyhow = "1"
bytemuck = { version = "1", features = ["derive"] }
env_logger = "0.11"
glam = { version = "0.30", features = ["bytemuck"] }
log = "0.4"
pollster = "0.4"
rand = "0.9"
wgpu = "26"
wgpu-profiler = "0.24"
winit = "0.30"
