[package]
name = "ssbt"
version = "0.1.0"
edition = "2021"
publish = false

[dependencies]
flate2 = "1"
glob = "0.3"
rand = "0.9"
chrono = "0.4"
anyhow = "1"
clap = { version = "4", features = ["derive"] }
serde = { version = "1", features = ["derive"] }
serde_json = "1"
serde_yaml = "0.9"
tokio = { version = "1", features = ["rt-multi-thread", "fs", "io-util", "sync", "time", "macros"] }
tokio-util = { version = "0.7", features = ["io"] }
tokio-stream = "0.1"
reqwest = { version = "0.12", default-features = false, features = ["stream"] }
futures = "0.3"
bytes = "1"

[dev-dependencies]
zip = { version = "2", default-features = false, features = ["deflate"] }
crc32fast = "1"
