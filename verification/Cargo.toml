[package]
name = "wire_messages"
version = "0.1.0"
edition = "2021"
publish = false

[dependencies]
serde = { version = "1", features = ["derive"] }
serde_json = "1"
reqwest = { version = "0.11", default-features = false, features = ["blocking", "json"] }
parking_lot = "0.12"
jsonrpc-core-client = { version = "18", features = ["http"] }
num_enum = "0.5"

[dev-dependencies]
rand = "0.8"
