[package]
name = "tftp_rs"
version = "0.1.0"
edition = "2021"
publish = false

[dependencies]
blake3 = "1"
dirs = "5"
egui = "0.29"
if-addrs = "0.13"
serde = { version = "1", features = ["derive"] }
serde_json = "1"
