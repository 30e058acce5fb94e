[package]
name = "nebula"
version = "0.1.0"
edition = "2021"
publish = false

[dependencies]
lz4_flex = "=0.11.6"
bytemuck = { version = "=1.25.2", features = ["derive"] }
serde = { version = "=1.0.229", features = ["derive"] }
postcard = { version = "=1.1.3", features = ["alloc"] }
ron = "=0.8.1"
glam = "=0.29.3"
thiserror = "=2.0.21"
image = { version = "=0.25.10", default-features = false, features = ["png"] }
crossbeam-channel = "=0.5.17"
tracing-subscriber = { version = "=0.3.23", features = ["env-filter", "json"] }
wgpu = { version = "=25.0.2", default-features = false, features = ["wgsl", "vulkan"] }
