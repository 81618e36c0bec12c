[package]
name = "jsonl_db"
version = "0.1.0"
edition = "2021"
publish = false

[dependencies]
serde_json = "1"
indexmap = "1"
serde = { version = "1", features = ["derive"] }
tokio = { version = "1", features = ["fs", "io-util", "sync", "time", "rt"] }
filetime = "0.2"
thiserror = "1"
anyhow = "1"
napi = { version = "2", default-features = false, features = ["napi4", "tokio_rt", "serde-json"] }
napi-derive = "2"
