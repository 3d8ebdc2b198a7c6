[package]
name = "raft_engine"
version = "0.1.0"
edition = "2021"
publish = false

[dependencies]
byte-unit = "4"
rand = "0.8"
clap = { version = "3", features = ["derive"] }
serde = { version = "1", features = ["derive"] }
