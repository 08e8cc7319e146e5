[package]
name = "bpu"
version = "0.1.0"
edition = "2021"
publish = false

[dependencies]
bsv = "=2.1.1"
num-traits = "*"
serde = { version = "*", features = ["derive"] }
serde_json = "*"
serde_with = { version = "*", features = ["base64"] }
thiserror = "*"
