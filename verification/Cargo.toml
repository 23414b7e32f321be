[package]
name = "upcache"
version = "0.1.0"
edition = "2021"
publish = false

[dependencies]
regex = "1"
fnv = "1"
serde = { version = "1", features = ["derive"] }
serde_json = "1"
serde-aux = "4"
rusqlite = { version = "0.31", features = ["bundled"] }
actix-web = "4"
actix-rt = "2"
env_logger = "0.11"
log = "0.4"
lazy_static = "1"
