[package]
name = "tree_pir"
version = "0.1.0"
edition = "2021"
publish = false

[dependencies]
bincode = { version = "=2.0.1", features = ["serde"] }
clap = { version = "=4.6.7", features = ["derive"] }
criterion = "=0.5.1"
memmap2 = "=0.9.12"
rand = { version = "=0.8.8", features = ["small_rng"] }
rayon = "=1.12.0"
serde = { version = "=1.0.229", features = ["derive"] }
serde_json = "=1.0.154"
zk-kit-lean-imt = { version = "=0.1.1", features = ["serde"] }
