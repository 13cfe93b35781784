[package]
name = "lsp_jsonrpc"
version = "0.1.0"
edition = "2021"
publish = false

[dependencies]
jsonrpc-core = "18"
serde = { version = "1", features = ["derive"] }
serde_json = "1"
