[package]
name = "cache_router"
version = "0.1.0"
edition = "2021"
publish = false

[dependencies]
serde_json = "1"
rand = "0.8"
bytes = "1"
futures-util = "0.3"
actix-web = { version = "4", default-features = false }
reqwest = { version = "0.12", default-features = false, features = ["stream"] }
