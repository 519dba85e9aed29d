[package]
name = "air_snark"
version = "0.1.0"
edition = "2021"
publish = false

[dependencies]
p3-field = "=0.4.3"
p3-util = "=0.4.3"
p3-koala-bear = "=0.4.3"
bincode = "=1.3.3"
serde = { version = "=1.0.229", features = ["derive"] }

[dev-dependencies]
blake3 = "=1.8.7"
rand = "0.9"
