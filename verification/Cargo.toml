[package]
name = "algo"
version = "0.1.0"
edition = "2021"
publish = false

[dependencies]
blake3 = "=1.8.7"
oneshot = { version = "=0.2.1", features = ["std"] }
