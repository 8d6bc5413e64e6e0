[package]
name = "partition_link"
version = "0.1.0"
edition = "2021"
publish = false

[dependencies]
anyhow = "*"
bytes = "*"
env_logger = "*"
log = "*"
protobuf = "2"
raft = "0.7"
serde = { version = "*", features = ["derive"] }
serde_json = "*"
socket2 = { version = "*", features = ["all"] }
tokio = { version = "*", features = ["full"] }
tokio-context = "*"
uuid = { version = "*", features = ["v4"] }
