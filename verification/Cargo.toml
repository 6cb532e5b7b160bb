[package]
name = "herdr_client"
version = "0.1.0"
edition = "2021"
publish = false

[dependencies]
libc = "0.2"
ratatui = { version = "0.29", default-features = false }
serde = { version = "1", features = ["derive"] }
serde_json = "1"
tokio = { version = "1", features = ["io-util", "macros", "net", "rt", "sync", "time"] }
tracing = "0.1"

[dev-dependencies]
toml = "0.8"
