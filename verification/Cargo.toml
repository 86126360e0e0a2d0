[package]
name = "greenlight"
version = "0.1.0"
edition = "2021"
publish = false

[dependencies]
hex = "=0.4.3"
base64 = "=0.21.7"
bytes = "=1.12.1"
vls-core = "=0.14.0"
vls-protocol = "=0.14.0"
vls-protocol-signer = "=0.14.0"
tokio = { version = "=1.54.1", features = ["sync", "rt", "time"] }
anyhow = "=1.0.104"
log = "=0.4.35"
serde = { version = "=1.0.229", features = ["derive"] }
serde_json = "=1.0.154"
sled = "=0.34.7"
thiserror = "=1.0.69"
which = "=4.4.2"
