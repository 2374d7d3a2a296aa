[package]
name = "shared"
version = "0.1.0"
edition = "2021"
publish = false

[dependencies]
postcard = { version = "=1.1.3", features = ["use-crc", "alloc"] }
crc = "=3.4.0"
heapless = "0.8"
serde = { version = "=1.0.229", features = ["derive"] }
serde_repr = "=0.1.21"
serialport = { version = "=4.10.1", default-features = false }
eframe = { version = "=0.37.0", default-features = false, features = ["glow", "default_fonts", "x11"] }
egui_plot = { version = "=0.38.0", default-features = false }
env_logger = { version = "=0.11.11", default-features = false }
