[package]
name = "chemengine"
version = "0.1.0"
edition = "2021"
publish = false

[dependencies]
bytemuck = { version = "1", features = ["derive"] }
glam = "*"
log = "0.4"
rayon = "1"
wgpu = "*"
