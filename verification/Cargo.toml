[package]
name = "aether"
version = "0.1.0"
edition = "2021"
publish = false

[dependencies]
sha2 = "0.10"
num-bigint = "0.4"
num-traits = "0.2"
hex = "0.4"
serde = { version = "1", features = ["derive"] }
serde_json = "1"
bincode = "1"
thiserror = "1"
anyhow = "1"
zstd = "0.13"
rayon = "1"
tokio = { version = "1", features = ["rt", "net", "io-util", "time", "macros"] }
