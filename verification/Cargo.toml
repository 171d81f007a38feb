[package]
name = "kotlin-lsp"
version = "0.1.0"
edition = "2021"
publish = false

[dependencies]
globset = "0.4"
log = "0.4"
serde = { version = "1", features = ["derive"] }
serde_json = "1"
tokio = { version = "1", features = ["rt", "rt-multi-thread", "macros", "sync", "time"] }
tower-lsp = "0.20"
tree-sitter = "0.22"
