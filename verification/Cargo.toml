[package]
name = "shaderbg_render"
version = "0.1.0"
edition = "2021"
publish = false

[dependencies]
serde = { version = "*", features = ["derive"] }
toml = "*"
wgpu = { version = "*", features = ["glsl"] }
cgmath = "*"
bytemuck = { version = "*", features = ["derive"] }
pollster = "*"
