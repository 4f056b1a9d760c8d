[package]
name = "openchain_selectors"
version = "0.1.0"
edition = "2021"
publish = false

[dependencies]
alloy-json-abi = "=0.8.26"
alloy-primitives = { version = "=0.8.26", features = ["map"] }
eyre = "=0.6.14"
reqwest = { version = "=0.12.28", default-features = false, features = ["json", "rustls-tls"] }
serde = { version = "=1.0.229", features = ["derive"] }
serde_json = "=1.0.154"
tracing = "0.1"
