[package]
name = "servicepoint_render"
version = "0.1.0"
edition = "2021"
publish = false

[dependencies]
clap = { version = "*", features = ["derive"] }
env_logger = "*"
fast_image_resize = "*"
image = { version = "*", default-features = false, features = ["png", "jpeg"] }
log = "*"
servicepoint = "*"
tungstenite = "*"
