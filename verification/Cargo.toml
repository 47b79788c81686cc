[package]
name = "graph_export"
version = "0.1.0"
edition = "2021"
publish = false

[dependencies]
serde = { version = "=1.0.229", features = ["derive"] }
serde_json = "=1.0.154"
reqwest = { version = "=0.12.28", features = ["blocking", "json"] }
graph-rs-sdk = "=3.0.1"
graph-http = "=3.0.0"
derive_more = { version = "=2.1.1", features = ["from", "display"] }
