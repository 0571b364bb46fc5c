[package]
name = "jsonrpc_wire"
version = "0.1.0"
edition = "2021"
publish = false

[dependencies]
serde = "1"
serde_json = "=1.0.151"
uuid = { version = "=1.27.0", features = ["v4"] }
