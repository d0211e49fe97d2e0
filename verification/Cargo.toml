[package]
name = "bonsai"
version = "0.1.0"
edition = "2021"
publish = false

[dependencies]
tree-sitter = "0.25"
tree-sitter-python = "*"
tree-sitter-javascript = "*"
tree-sitter-rust = "*"
xxhash-rust = { version = "0.8", features = ["xxh3"] }
regex = "1"
serde = { version = "1", features = ["derive"] }
serde_json = "1"
toml = "*"
tempfile = "3"
wait-timeout = "0.2"
clap = { version = "4", features = ["derive"] }
ctrlc = "3"
shell-words = "1"
