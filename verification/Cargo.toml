[package]
name = "consensus"
version = "0.1.0"
edition = "2021"
publish = false

[dependencies]
threshold_crypto = "0.4"
bincode = "1.3"
serde = { version = "1", features = ["derive"] }
tokio = { version = "1", features = ["sync", "time", "macros", "rt"] }
log = "0.4"
base64 = "0.13"

[dev-dependencies]
rand = "0.7"
