[package]
name = "cml"
version = "0.1.0"
edition = "2021"
publish = false

[dependencies]
base64 = "0.13"
ascii = "1.0"
tokio = { version = "1", features = ["full"] }
reqwest = { version = "0.11", features = ["json"] }
serde = { version = "1", features = ["derive"] }
serde_json = "1"
clap = { version = "4", features = ["derive"] }
futures = "0.3"
crossterm = { version = "0.27", features = ["event-stream"] }
tokio-tungstenite = { version = "0.20", features = ["native-tls"] }
native-tls = "0.2"
tokio-native-tls = "0.3"
anyhow = "1"
thiserror = "1"
env_logger = "0.10"
log = "0.4"
