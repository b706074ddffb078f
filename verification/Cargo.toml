[package]
name = "liboo"
version = "0.1.0"
edition = "2021"
publish = false

[dependencies]
anyhow = "=1.0.104"
blake3 = "=1.8.7"
bs58 = "=0.5.1"
clap = { version = "=4.6.7", features = ["derive"] }
cobs = "=0.3.0"
dirs = "=6.0.0"
ed25519-dalek = { version = "=2.2.0", features = ["serde"] }
futures-lite = "=2.6.1"
iroh-base = "=0.91.2"
mainline = "=5.4.0"
owo-colors = "=4.4.0"
palette = "=0.7.7"
postcard = { version = "=1.1.3", features = ["use-std"] }
rand = "=0.8.8"
rustyline-async = "=0.4.9"
serde = { version = "=1.0.229", features = ["derive"] }
thiserror = "=2.0.21"
tokio = { version = "=1.54.1", features = ["full"] }
