[package]
name = "fractal_codec"
version = "0.1.0"
edition = "2021"
publish = false

[dependencies]
bytemuck = { version = "*", features = ["derive"] }
image = "*"
pollster = "*"
wgpu = "*"
