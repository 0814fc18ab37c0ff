[package]
name = "desk_shim"
version = "0.1.0"
edition = "2021"
publish = false

[dependencies]
anyhow = "1"
axum = { version = "=0.8.9", default-features = false, features = ["http1", "tokio"] }
base64 = "=0.22.1"
bytes = "1"
eventsource-stream = "0.2"
flate2 = "=1.1.10"
futures = "0.3"
reqwest = { version = "=0.12.28", default-features = false, features = ["json", "stream", "rustls-tls"] }
serde = "=1.0.229"
serde_json = "=1.0.154"
tokio = { version = "1", features = ["fs", "macros", "net", "rt-multi-thread", "sync"] }
tokio-stream = "0.1"
toml = "=0.9.12"
tracing = "0.1"
uuid = { version = "=1.29.0", features = ["v4"] }
zstd = "=0.13.4"
