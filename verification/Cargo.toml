[package]
name = "zk_summit_challenge"
version = "0.1.0"
edition = "2021"
publish = false

[dependencies]
ark-bls12-381 = "=0.3.0"
ark-ec = "=0.3.0"
ark-ff = "=0.3.0"
ark-poly = "=0.3.0"
ark-serialize = "=0.3.0"
ark-std = "=0.3.0"
blake3 = "1"
hex = "0.4"
anyhow = "1"
clap = { version = "3", features = ["derive"] }
csv = "1"
serde = { version = "1", features = ["derive"] }
rand = "0.8"
