[package]
name = "ctp500"
version = "0.1.0"
edition = "2021"
publish = false

[dependencies]
image = { version = "0.25", default-features = false, features = ["png", "jpeg", "bmp"] }
imageproc = { version = "0.25", default-features = false }
ab_glyph = "0.2"
btleplug = "0.11"
tokio = { version = "1", features = ["rt-multi-thread", "sync", "time", "macros"] }
futures = "0.3"
env_logger = "0.11"
chrono = "0.4"
base64 = "0.22"

[dev-dependencies]
regex = "1"
