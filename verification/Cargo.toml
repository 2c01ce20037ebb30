[package]
name = "distant"
version = "0.1.0"
edition = "2021"
publish = false

[dependencies]
orion = "0.17"
rand = "0.8"
serde = { version = "1", features = ["derive"] }
serde_cbor = "0.11"
tokio = { version = "1", features = ["rt", "rt-multi-thread", "sync", "net", "io-util", "macros", "time", "process"] }
clap = { version = "4", features = ["derive"] }
anyhow = "1"
log = "0.4"
