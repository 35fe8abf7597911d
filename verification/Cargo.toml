[package]
name = "agsh"
version = "0.1.0"
edition = "2021"
publish = false

[dependencies]
regex = "1"
serde = { version = "1", features = ["derive"] }
serde_json = "1"
tokio = { version = "1", features = ["fs", "io-util", "sync", "rt", "rt-multi-thread", "macros"] }
tokio-util = "0.7"
async-trait = "0.1"
crossterm = "*"
glob = "0.3"
base64 = "0.22"
libc = "0.2"
tracing = "0.1"
uuid = { version = "1", features = ["v4"] }
