[package]
name = "wifly"
version = "0.1.0"
edition = "2021"
publish = false

[dependencies]
chrono = "=0.4.45"
uuid = { version = "=1.29.0", features = ["v4"] }
sanitize-filename = "=0.6.0"
serde = { version = "=1.0.229", features = ["derive"] }
serde_json = "=1.0.154"
tokio = { version = "=1.54.1", features = ["full"] }
actix = "=0.13.5"
actix-web = "=4.18.1"
actix-web-actors = "=4.3.1"
actix-cors = "=0.7.2"
actix-files = "=0.6.10"
futures-util = "=0.3.34"
local-ip-address = "=0.6.13"
