[package]
name = "zeropool_substrate"
version = "0.1.0"
edition = "2021"
publish = false

[dependencies]
base64 = "=0.13.1"
borsh = "=0.9.3"
zeropool-bn = { version = "=0.5.11", features = ["borsh"] }
serde = { version = "=1.0.229", features = ["derive"] }
serde_json = "=1.0.154"
