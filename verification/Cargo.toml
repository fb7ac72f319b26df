[package]
name = "kick"
version = "0.1.0"
edition = "2021"
publish = false

[dependencies]
url = "*"
serde_json = "*"
serde = { version = "*", features = ["derive"] }
hyper = { version = "*", features = ["full"] }
hyper-util = { version = "*", features = ["full"] }
hyper-tls = "*"
http-body-util = "*"
bytes = "*"
tokio = { version = "*", features = ["full"] }
futures = "*"
toml = "*"
dirs = "*"
uuid = { version = "*", features = ["v4"] }
clap = { version = "*", features = ["derive"] }
