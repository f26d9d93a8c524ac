[package]
name = "httpautomate"
version = "0.1.0"
edition = "2021"
publish = false

[dependencies]
anyhow = "1"
chrono = "0.4"
clap = { version = "4", features = ["cargo"] }
rand = "0.8"
reqwest = { version = "0.12", default-features = false, features = ["blocking"] }
rhai = "1"
serde_json = "1"
url = "2"
uuid = { version = "1", features = ["v4"] }
