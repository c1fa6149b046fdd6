[package]
name = "tc_middleware"
version = "0.1.0"
edition = "2021"
publish = false

[dependencies]
taskchampion = { version = "=3.1.0", default-features = false, features = ["storage-sqlite", "server-sync", "bundled", "tls-webpki-roots"] }
axum = "=0.7.9"
tokio = { version = "=1.54.1", features = ["rt", "macros", "sync", "net"] }
serde = { version = "=1.0.229", features = ["derive"] }
serde_json = "=1.0.154"
chrono = { version = "=0.4.45", features = ["serde"] }
tracing = "=0.1.44"
tracing-subscriber = "=0.3.23"
async-trait = "=0.1.92"
