[package]
name = "awsdocuments_language_server"
version = "0.1.0"
edition = "2021"
publish = false

[dependencies]
addr = "0.15"
dashmap = "5"
regex = "1"
reqwest = { version = "0.11", default-features = false }
serde_json = "1"
time = { version = "0.3", features = ["parsing"] }
tokio = { version = "1", features = ["io-std", "macros", "rt-multi-thread"] }
tower-lsp = "0.19"
tree-sitter = "0.20"
tree-sitter-json = "0.20"
url = "2"
