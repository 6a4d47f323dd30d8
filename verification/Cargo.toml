[package]
name = "cloggen"
version = "0.1.0"
edition = "2021"
publish = false

[dependencies]
anyhow = "1"
clap = { version = "4", features = ["derive"] }
csv = "1"
encoding_rs = "0.8"
glob = "0.3"
rand = "0.8"
serde_json = "1"
