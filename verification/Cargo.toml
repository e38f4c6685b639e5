[package]
name = "loregrep"
version = "0.1.0"
edition = "2021"
publish = false

[dependencies]
regex = "*"
fuzzy-matcher = "*"
tree-sitter = "*"
tree-sitter-rust = "*"
tree-sitter-python = "*"
streaming-iterator = "*"
serde = "*"
serde_json = "*"
anyhow = "*"
