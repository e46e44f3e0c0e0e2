[package]
name = "vecadd"
version = "0.1.0"
edition = "2021"
publish = false

[dependencies]
wgpu = "22"
bytemuck = "1"
futures-intrusive = "0.5"
pollster = "0.3"
