[package]
name = "nixcp"
version = "0.1.0"
edition = "2021"
publish = false

[dependencies]
sha2 = "=0.10.9"
zstd = "=0.13.3"
url = "=2.5.8"
ulid = "=2.0.1"
ed25519-dalek = "=2.2.0"
data-encoding = "*"
anyhow = "=1.0.104"
clap = { version = "=4.5.61", features = ["derive"] }
tokio = { version = "=1.53.2", features = ["full"] }
reqwest = { version = "=0.12.28", default-features = false }
object_store = { version = "=0.12.5", features = ["aws"] }
futures = "=0.3.34"
bincode = "=2.0.1"
bytes = "=1.10.1"
tokio-util = { version = "=0.7.19", features = ["codec", "io"] }
