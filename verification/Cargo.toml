[package]
name = "roots_core"
version = "0.1.0"
edition = "2021"
publish = false

[dependencies]
bytemuck = { version = "=1.25.2", features = ["derive"] }
cosmic-text = "=0.19.0"
etagere = "=0.3.0"
lru = { version = "=0.18.5", default-features = false }
wgpu = "=30.0.1"
