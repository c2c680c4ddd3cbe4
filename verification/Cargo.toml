[package]
name = "manhuaviewer"
version = "0.1.0"
edition = "2021"
publish = false

[dependencies]
natord = "=1.0.9"
chrono = "=0.4.45"
mime_guess = "=2.0.5"
anyhow = "=1.0.104"
serde = { version = "=1.0.229", features = ["derive"] }
serde_json = "=1.0.154"
axum = "=0.7.9"
tokio = { version = "=1.54.1", features = ["rt-multi-thread", "macros", "fs", "net", "sync", "time"] }
tracing = "=0.1.44"
rusqlite = { version = "=0.41.1", features = ["bundled"] }
zip = { version = "=9.2.2", default-features = false, features = ["deflate"] }
walkdir = "=2.5.0"
tempfile = "=3.27.0"
tower-http = { version = "0.6", features = ["cors"] }
tokio-util = { version = "0.7", features = ["io"] }
tokio-stream = "0.1"
ureq = "2"
if-addrs = "0.13"
dirs = "6"
tracing-subscriber = { version = "0.3", features = ["env-filter", "fmt"] }
tracing-appender = "0.2"
image = { version = "0.25", default-features = false, features = ["jpeg", "png", "gif", "webp"] }
