[package]
name = "coolercontrol_truenas_bridge"
version = "0.1.2"
edition = "2021"
publish = false

[dependencies]
anyhow = "1"
clap = { version = "4", features = ["derive"] }
env_logger = "0.11"
futures-util = { version = "0.3", features = ["sink"] }
log = "0.4"
native-tls = "0.2"
prost = "0.14"
serde = { version = "1", features = ["derive"] }
serde_json = "1"
tokio = { version = "1", features = ["full"] }
tokio-tungstenite = { version = "0.28", features = ["native-tls"] }
tokio-util = "0.7"
tonic = "0.14"
tonic-health = "0.14"
tonic-prost = "0.14"
