[package]
name = "passthrough_cut"
version = "0.1.0"
edition = "2021"
publish = false

[dependencies]
anyhow = "1"
base64 = "0.22"
env_logger = "0.11"
image = { version = "0.25", default-features = false, features = ["jpeg"] }
log = "0.4"
serde = { version = "1", features = ["derive"] }
tempfile = "3"
urlencoding = "2"
uuid = { version = "1", features = ["v4"] }
