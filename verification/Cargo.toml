[package]
name = "blockchain"
version = "0.1.0"
edition = "2021"
publish = false

[dependencies]
actix-web = "=1.0.9"
chrono = { version = "=0.4.19", features = ["serde"] }
crypto-hash = "=0.3.4"
reqwest = "=0.9.24"
serde = { version = "=1.0.229", features = ["derive"] }
serde_json = "=1.0.154"
urlparse = "=0.7.3"
uuid = { version = "=0.7.4", features = ["v4"] }
