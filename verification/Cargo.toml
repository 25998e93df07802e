[package]
name = "firehol"
version = "0.1.0"
edition = "2021"
publish = false

[dependencies]
anyhow = "1"
clap = { version = "4", features = ["derive"] }
env_logger = "0.11"
humantime-serde = "1"
ipnet = { version = "2", features = ["serde"] }
log = "0.4"
nftables = "0.6"
reqwest = { version = "0.12", default-features = false, features = ["rustls-tls", "charset", "http2"] }
serde = { version = "1", features = ["derive"] }
serde_json = "1"
tokio = { version = "1", features = ["full"] }
tokio-util = "0.7"
toml = "0.8"
windows-service = "0.8"
windows-sys = { version = "0.60", features = ["Win32_Foundation", "Win32_System_EventLog"] }
