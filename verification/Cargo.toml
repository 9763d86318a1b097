[package]
name = "afrolink"
version = "0.1.0"
edition = "2021"
publish = false

[dependencies]
bech32 = "=0.11.1"
blake3 = { version = "=1.8.7", default-features = false }
ed25519-dalek = { version = "=2.2.0", default-features = false, features = ["std"] }
redb = "=4.4.0"
thiserror = "=2.0.21"
