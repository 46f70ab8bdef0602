[package]
name = "soorat"
version = "0.1.0"
edition = "2021"
publish = false

[dependencies]
image = { version = "=0.25.10", default-features = false, features = ["png", "jpeg", "bmp"] }
serde = { version = "=1.0.229", features = ["derive"] }
mabda = "=1.0.0"
wgpu = "=29.0.4"
