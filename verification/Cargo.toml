[package]
name = "sandgrid"
version = "0.1.0"
edition = "2021"
publish = false

[dependencies]
anyhow = "1"
bytemuck = { version = "1", features = ["derive"] }
glam = { version = "0.29", features = ["bytemuck"] }
log = "0.4"
png = "0.17"
pollster = "0.3"
tobj = "3"
wgpu = "23"
winit = "0.29"
winit_input_helper = "0.16"
