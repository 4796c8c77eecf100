[package]
name = "daub"
version = "0.1.0"
edition = "2021"
publish = false

[dependencies]
bytemuck = { version = "*", features = ["derive"] }
wgpu = "*"
glyphon = "*"
pollster = "*"
derive_setters = "*"
winit = "*"
serde = { version = "*", features = ["derive"] }
