[package]
name = "agent_relay"
version = "0.1.0"
edition = "2021"
publish = false

[dependencies]
regex = "1"
serde_json = "1"
uuid = { version = "1", features = ["v4"] }
serde = { version = "1", features = ["derive"] }
serde_yaml = "0.8"
tokio = { version = "1", features = ["full"] }
tokio-tungstenite = "0.16"
futures = "0.3"
log = "0.4"
log4rs = "1"
dotenv = "0.15"
anyhow = "1"
twilight-gateway = "0.8"
twilight-http = "0.8"
twilight-model = "0.8"
twilight-cache-inmemory = "0.8"
twilight-embed-builder = "0.8"
serenity = "0.10"
