[package]
name = "pegasus"
version = "0.1.0"
edition = "2021"
publish = false

[dependencies]
rand = "0.8"
thiserror = "1"
anyhow = "1"
tokio = { version = "1", features = ["full"] }
tokio-pipe = "0.2"
futures = "0.3"
crossbeam = "0.8"
crossbeam-channel = "0.5"
nix = "0.26"
passfd = "0.1"
