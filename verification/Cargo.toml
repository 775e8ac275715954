[package]
name = "gc2607-isp"
version = "0.1.0"
edition = "2021"
publish = false

[dependencies]
rayon = "1"
bytemuck = { version = "1", features = ["derive"] }
image = { version = "*", default-features = false, features = ["png"] }
nix = { version = "*", features = ["ioctl", "poll"] }
pollster = "*"
wgpu = "*"
libcamera = "*"

[dev-dependencies]
demosaic = "*"
