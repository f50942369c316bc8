[package]
name = "screenshare"
version = "0.1.0"
edition = "2021"
publish = false

[dependencies]
bytes = "=1.12.1"
webrtc = "=0.17.2"
tokio = { version = "=1.54.1", features = ["full"] }
async-tungstenite = { version = "=0.17.2", features = ["tokio-runtime", "tokio-native-tls"] }
tokio-native-tls = "=0.3.1"
clap = "=3.2.25"
event-listener = "=2.5.3"
futures-util = { version = "=0.3.34", features = ["sink"] }
serde = { version = "=1.0.229", features = ["derive"] }
serde_json = "=1.0.154"
