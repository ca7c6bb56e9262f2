[package]
name = "blockrock"
version = "0.1.0"
edition = "2021"
publish = false

[dependencies]
ed25519-dalek = { version = "=2.2.0", features = ["rand_core"] }
sha2 = "=0.10.9"
blake2 = "=0.10.6"
hex = "=0.4.3"
rand = "0.8"
serde = { version = "1", features = ["derive"] }
serde_json = "1"
tokio = { version = "1", features = ["full"] }
dotenvy = "0.15"
tracing = "0.1"
tracing-subscriber = "0.3"
reqwest = { version = "0.12", default-features = false, features = ["json"] }
rocket = { version = "0.5", default-features = false, features = ["json"] }
