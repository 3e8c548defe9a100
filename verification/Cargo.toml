[package]
name = "rust_av_kit"
version = "0.1.0"
edition = "2021"
publish = false

[dependencies]
v_frame = "0.3"
napi = "2"
napi-derive = "2"
serde = { version = "1", features = ["derive"] }
serde_json = "1"
image = { version = "0.25", default-features = false, features = ["png", "jpeg", "bmp"] }
gstreamer = "0.23"
gstreamer-app = "0.23"
