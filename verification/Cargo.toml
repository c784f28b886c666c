[package]
name = "tiled_life"
version = "0.1.0"
edition = "2021"
publish = false

[dependencies]
bounded-vec-deque = "*"
wgpu = "*"
winit = "*"
egui = "*"
egui-wgpu = "*"
egui-winit = "*"
gilrs = "*"
glam = "*"
naga_oil = "*"
pollster = "*"
bytemuck = { version = "*", features = ["derive"] }
