[package]
name = "fractalx"
version = "0.1.0"
edition = "2021"
publish = false

[dependencies]
bytemuck = { version = "1", features = ["derive"] }
dashu = "0.4"
eframe = { version = "*", default-features = false, features = ["default_fonts", "wgpu", "x11"] }
fastrand = "2"
png = "0.18"
rayon = "1"
rfd = "*"
serde = { version = "1", features = ["derive"] }
serde_json = "1"
