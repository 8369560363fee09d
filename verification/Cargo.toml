[package]
name = "upload_symbols"
version = "0.1.0"
edition = "2021"
publish = false

[dependencies]
anyhow = "=1.0.104"
axum = { version = "=0.8.9", features = ["multipart"] }
clap = { version = "=4.6.7", features = ["derive", "env"] }
flate2 = "=1.1.10"
libc = "=0.2.191"
md-5 = "=0.11.0"
opentelemetry = "=0.33.1"
opentelemetry-otlp = "=0.33.1"
opentelemetry_sdk = "=0.33.1"
opentelemetry-semantic-conventions = "=0.33.1"
rand = "=0.10.3"
reqwest = { version = "=0.13.5", features = ["gzip", "json", "multipart", "stream"] }
sentry = { version = "=0.49.5", default-features = false, features = ["backtrace", "contexts", "panic", "reqwest", "rustls"] }
serde = { version = "=1.0.229", features = ["derive"] }
thiserror = "=2.0.21"
tokio = { version = "=1.54.1", features = ["full"] }
tokio-util = { version = "=0.7.20", features = ["io"] }
tracing = "=0.1.44"
tracing-opentelemetry = "=0.34.0"
tracing-subscriber = { version = "=0.3.23", features = ["env-filter"] }
url = "=2.5.8"
walkdir = "=2.5.0"
zip = { version = "=8.6.0", default-features = false, features = ["deflate"] }
