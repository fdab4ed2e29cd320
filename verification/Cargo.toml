[package]
name = "peeps"
version = "0.1.0"
edition = "2021"
publish = false

[dependencies]
facet = "=0.46.5"
facet-json = "=0.46.1"
facet-value = "=0.46.0"
compact_str = "=0.10.0"
tokio = { version = "=1.54.1", features = ["full"] }
axum = "=0.8.9"
rusqlite = { version = "=0.41.1", features = ["bundled", "hooks"] }
serde = { version = "=1.0.229", features = ["derive"] }
serde_json = "=1.0.154"
tracing = "=0.1.44"
parking_lot = "=0.13.0"
backtrace = "=0.3.77"
libc = "=0.2.191"
