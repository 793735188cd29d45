[package]
name = "memgraph"
version = "0.1.0"
edition = "2021"
publish = false

[dependencies]
rand = "0.8"
rand_chacha = "0.3"
serde = { version = "1", features = ["derive"] }
bincode = "1"
sled = "0.34"
futures = "0.3"
