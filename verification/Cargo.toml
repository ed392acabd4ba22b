[package]
name = "escpos-emulator"
version = "0.1.0"
edition = "2021"
publish = false

[dependencies]
anyhow = "1"
eframe = { version = "0.23", default-features = false, features = ["default_fonts", "glow", "x11"] }
egui = "0.23"
encoding_rs = "0.8"
image = { version = "0.24", default-features = false }
serde = { version = "1", features = ["derive"] }
tokio = { version = "1", features = ["full"] }
tracing = "0.1"
