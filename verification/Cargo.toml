[package]
name = "gguf-recast"
version = "0.1.0"
edition = "2021"
publish = false

[dependencies]
memmap2 = "0.9"
regex = "1"
serde = { version = "1", features = ["derive"] }
serde_json = "1"
serde_yaml = "0.9"
