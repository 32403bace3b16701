[package]
name = "uscanner"
version = "0.1.0"
edition = "2021"
publish = false

[dependencies]
anyhow = "1"
hex = "0.4"
ignore = "0.4"
memmap2 = "0.9"
notify = "*"
parking_lot = "0.12"
rayon = "1"
regex = "1"
rmp-serde = "1"
rusqlite = { version = "*", features = ["bundled"] }
serde = { version = "1", features = ["derive"] }
serde_json = "1"
sha2 = "0.10"
tokio = { version = "1", features = ["rt-multi-thread", "sync", "macros"] }
toml = "0.8"
tracing = "0.1"
tree-sitter = "0.25"

[dev-dependencies]
tree-sitter-cpp = "0.23"
