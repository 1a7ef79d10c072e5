[package]
name = "tokio_cni"
version = "0.1.0"
edition = "2021"
publish = false

[dependencies]
serde = "1"
serde_json = "1"
cidr = "*"
async-trait = "*"
tokio = { version = "1", features = ["process", "fs", "io-util", "rt"] }
