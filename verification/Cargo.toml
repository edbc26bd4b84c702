[package]
name = "traffic_director"
version = "0.1.0"
edition = "2021"
publish = false

[dependencies]
bytes = "1"
ecdysis = { version = "*", features = ["tokio_ecdysis"] }
env_logger = "*"
futures = "0.3"
log = "0.4"
nix = { version = "0.26", features = ["socket", "signal", "process", "uio"] }
rmqtt-codec = "*"
serde = { version = "1", features = ["derive"] }
serde_json = "1"
tokio = { version = "1", features = ["full"] }
tokio-util = { version = "0.7", features = ["codec"] }
