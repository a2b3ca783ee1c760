[package]
name = "s-compositor"
version = "0.1.0"
edition = "2021"
publish = false

[dependencies]
anyhow = "1"
async-channel = "2"
chrono = "0.4"
env_logger = "*"
futures-lite = "2"
image = { version = "0.25", default-features = false, features = ["png"] }
libpulse-binding = "2"
log = "0.4"
smithay = { version = "*", default-features = false, features = ["wayland_frontend"] }
system-tray = "*"
tokio = { version = "1", features = ["rt", "rt-multi-thread", "time", "sync", "macros"] }
zbus = "5"
