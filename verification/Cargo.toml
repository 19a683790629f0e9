[package]
name = "mesh_network"
version = "0.1.0"
edition = "2021"
publish = false

[dependencies]
bytes = "1"
iroh = "*"
serde = { version = "1", features = ["derive"] }
tokio = { version = "1", features = ["full"] }
toml = "*"
tracing = "0.1"
tracing-appender = "*"
tracing-subscriber = { version = "0.3", features = ["env-filter"] }
tun = { version = "*", features = ["async"] }
