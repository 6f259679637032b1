[package]
name = "space_sim"
version = "0.1.0"
edition = "2021"
publish = false

[dependencies]
bytemuck = { version = "1", features = ["derive"] }
egui = "*"
egui-wgpu = "*"
egui-winit = "*"
env_logger = "*"
glam = "*"
rand = "0.8"
wgpu = "*"
winit = "0.30"
