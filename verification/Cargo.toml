[package]
name = "omarchy_syncd"
version = "0.1.1"
edition = "2021"
publish = false

[dependencies]
anyhow = "1"
ed25519-dalek = "2"
serde = { version = "1", features = ["derive"] }
serde_json = "1"
sha2 = "0.10"
snow = "0.9"
