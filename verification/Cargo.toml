[package]
name = "via_core"
version = "0.1.0"
edition = "2021"
publish = false

[dependencies]
xxhash-rust = { version = "0.8", features = ["xxh3"] }
serde = { version = "1", features = ["derive"] }
serde_json = "1"
bincode = "1"
rand = "0.9"
clap = { version = "4", features = ["derive"] }
crossbeam-channel = "0.5"
chrono = "0.4"
