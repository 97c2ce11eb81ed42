[package]
name = "ringct"
version = "0.1.0"
edition = "2021"
publish = false

[dependencies]
curve25519-dalek = "=5.0.0"
tari_bulletproofs_plus = "=0.5.3"
blake2 = "=0.10.6"
rand = "=0.8.8"
zeroize = "=1.9.1"
serde = { version = "=1.0.229", features = ["derive"] }
bincode = "=1.3.3"
