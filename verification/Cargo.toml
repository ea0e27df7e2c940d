[package]
name = "collect_diff_context"
version = "0.1.0"
edition = "2021"
publish = false

[dependencies]
sha2 = "*"
serde = { version = "*", features = ["derive"] }
serde_json = "*"
regex = "*"
tree-sitter = "*"
tree-sitter-rust = "*"
toml = "*"
rusqlite = { version = "*", features = ["bundled"] }
percent-encoding = "*"
tempfile = "*"
libc = "*"
