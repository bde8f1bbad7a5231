[package]
name = "ldlidar"
version = "0.1.0"
edition = "2021"
publish = false

[dependencies]
anyhow = "1"
eframe = { version = "*", default-features = false, features = ["default_fonts", "glow", "x11"] }
egui = { version = "*", default-features = false }
egui_plot = "*"
notify = "*"
serde = { version = "1", features = ["derive"] }
serialport = { version = "*", default-features = false }
toml = "*"
zerocopy = "0.8"
