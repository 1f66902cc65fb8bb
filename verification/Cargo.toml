[package]
name = "ubgp"
version = "0.1.0"
edition = "2021"
publish = false

[dependencies]
ipnet = "2"
tokio = { version = "1", features = ["full"] }
tokio-util = { version = "0.7", features = ["codec"] }
tokio-stream = "0.1"
futures = "0.3"
bytes = "1"
anyhow = "1"
thiserror = "1"
log = "0.4"
env_logger = "0.11"
clap = { version = "4", features = ["derive"] }
serde = "1"
serde_derive = "1"
toml = "0.8"
rtnetlink = "*"
netlink-packet-route = "*"
