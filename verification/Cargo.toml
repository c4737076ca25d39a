[package]
name = "goat"
version = "0.1.0"
edition = "2021"
publish = false

[dependencies]
rand = "0.8"
smallvec = "1"
sha2 = "0.10"
serde = { version = "1", features = ["derive"] }
serde_json = "1"
thiserror = "1"
tokio = { version = "1", features = ["full"] }
tokio-stream = "0.1"
futures-util = "0.3"
warp = "0.3"
log = "0.4"
env_logger = "0.10"
parking_lot = "0.12"
rayon = "1"

[dev-dependencies]
itertools = "0.10"
