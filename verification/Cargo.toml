[package]
name = "boxy"
version = "0.1.0"
edition = "2021"
publish = false

[dependencies]
mime_guess = "*"
uuid = { version = "*", features = ["v4"] }
actix-web = "*"
actix-multipart = "*"
actix-ws = "*"
tokio = { version = "*", features = ["full"] }
futures-util = "*"
serde = { version = "*", features = ["derive"] }
serde_json = "*"
env_logger = "*"
filetime = "*"
