[package]
name = "txpaint"
version = "0.1.0"
edition = "2021"
publish = false

[dependencies]
image = { version = "0.25", default-features = false, features = ["png"] }
flate2 = "1"
ron = "0.12"
serde = { version = "1", features = ["derive"] }
anyhow = "1"
egui = "=0.37.0"
eframe = { version = "=0.37.0", default-features = false, features = ["wgpu", "x11", "default_fonts"] }
egui-wgpu = "=0.37.0"
bytemuck = { version = "1", features = ["derive"] }
rfd = "0.17"
