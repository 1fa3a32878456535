[package]
name = "screen_share"
version = "0.1.0"
edition = "2021"
publish = false

[dependencies]
base64 = "=0.22.1"
futures-util = "=0.3.34"
image = { version = "=0.25.10", default-features = false, features = ["jpeg"] }
local-ip-address = "=0.6.13"
screenshots = "0.8"
serde = { version = "=1.0.229", features = ["derive"] }
serde_json = "=1.0.154"
tokio = { version = "=1.54.1", features = ["net", "sync", "time", "rt", "macros"] }
tokio-tungstenite = "=0.24.0"
