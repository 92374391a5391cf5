[package]
name = "riichi"
version = "0.1.0"
edition = "2021"
publish = false

[dependencies]
tinyvec = { version = "=1.13.3", features = ["alloc"] }
serde = { version = "=1.0.229", features = ["derive"] }
serde_json = "=1.0.154"
serde_with = "=3.24.0"
anyhow = "=1.0.104"
sha3 = "=0.10.9"
rand = "=0.8.8"
rand_chacha = "=0.3.1"
ndarray = "=0.15.6"
flate2 = "1"
rayon = "1"
