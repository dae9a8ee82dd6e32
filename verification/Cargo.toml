[package]
name = "pbin"
version = "0.1.0"
edition = "2021"
publish = false

[dependencies]
bidiff = "=1.0.0"
bipatch = "=1.0.0"
blake3 = "=1.8.7"
goblin = "=0.10.7"
scroll = { version = "=0.13.0", default-features = false }
serde = { version = "=1.0.229", features = ["derive"] }
serde_json = "=1.0.154"
thiserror = "=2.0.21"
zstd = "=0.14.3"
