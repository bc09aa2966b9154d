[package]
name = "tilth"
version = "0.1.0"
edition = "2021"
publish = false

[dependencies]
dashmap = "=6.2.1"
memchr = "=2.8.3"
tree-sitter = "=0.27.1"
streaming-iterator = "=0.1.9"
ignore = "=0.4.33"
rayon = "=1.12.0"
serde = { version = "=1.0.229", features = ["derive"] }
serde_json = "=1.0.154"
memmap2 = "=0.9.12"
regex = "=1.13.1"
tree-sitter-rust = "=0.24.2"
tree-sitter-python = "=0.25.0"
tree-sitter-typescript = "=0.23.2"
tree-sitter-javascript = "=0.25.0"
tree-sitter-go = "=0.25.0"
tree-sitter-java = "=0.23.5"
