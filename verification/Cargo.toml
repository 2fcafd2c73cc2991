[package]
name = "locutus_core"
version = "0.1.0"
edition = "2021"
publish = false

[dependencies]
wasmer = "=5.0.6"
blake2 = "=0.11.0"
serde = { version = "=1.0.229", features = ["derive"] }
bincode = "=1.3.3"
tar = "=0.4.46"
xz2 = "=0.1.7"
bs58 = "=0.5.1"

[dev-dependencies]
ed25519-dalek = "=3.0.0"
wat = "=1.261.0"
