[package]
name = "location_watcher"
version = "0.1.0"
edition = "2021"
publish = false

[dependencies]
notify = "*"
blake3 = "*"
rand = "0.8"
rand_chacha = "0.3"
rand_core = "0.6"
tokio = { version = "*", features = ["full"] }
tokio-util = "*"
async-channel = "*"
uuid = { version = "*", features = ["v4"] }
tracing = "*"
linux-keyutils = "*"
