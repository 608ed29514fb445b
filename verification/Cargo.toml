[package]
name = "dupfinder"
version = "0.1.0"
edition = "2021"
publish = false

[dependencies]
image = { version = "0.25", default-features = false, features = ["png", "jpeg", "bmp", "gif", "tiff"] }
tokio = { version = "1", features = ["fs", "rt-multi-thread", "macros", "sync"] }
tokio-stream = "0.1"
futures = "0.3"
eframe = { version = "0.31", default-features = false, features = ["glow", "default_fonts", "x11"] }
