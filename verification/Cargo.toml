[package]
name = "mq-http"
version = "0.1.0"
edition = "2021"
publish = false

[dependencies]
axum = "=0.8.9"
axum-server = { version = "0.8", features = ["tls-rustls"] }
base64 = "=0.22.1"
clap = { version = "4", features = ["derive", "env"] }
futures-util = "0.3"
miette = { version = "7", features = ["fancy"] }
mq-lang = { version = "=0.5.31", features = ["cst"] }
mq-markdown = "=0.5.31"
notify = "8"
opentelemetry = "0.31"
opentelemetry-otlp = "0.31"
opentelemetry_sdk = "0.31"
serde_json = { version = "=1.0.154", features = ["preserve_order"] }
serde_urlencoded = "=0.7.1"
tokio = { version = "1", features = ["full"] }
toml = "=0.8.23"
tower-http = { version = "0.6", features = ["compression-gzip", "cors", "limit", "trace"] }
tracing = "0.1"
tracing-opentelemetry = "0.32"
tracing-subscriber = { version = "0.3", features = ["env-filter"] }
yaml-rust2 = "=0.11.1"
