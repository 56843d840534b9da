[package]
name = "openvds"
version = "0.1.0"
edition = "2021"
publish = false

[dependencies]
flate2 = "=1.1.10"
zstd = "=0.14.0"
chrono = { version = "=0.4.45", features = ["serde"] }
serde = { version = "1", features = ["derive"] }
serde_json = "1"
tokio = { version = "1", features = ["rt", "rt-multi-thread", "fs", "io-util", "sync", "macros"] }
async-trait = "0.1"
bytes = "1"
futures = "0.3"
parking_lot = "*"
