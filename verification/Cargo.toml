[package]
name = "rad"
version = "0.1.0"
edition = "2021"
publish = false

[dependencies]
async-trait = "0.1"
axum = "=0.8.9"
opentelemetry = "=0.33.1"
opentelemetry_sdk = { version = "=0.33.1", features = ["metrics", "trace"] }
opentelemetry-otlp = "=0.33.1"
opentelemetry-prometheus = "=0.33.1"
prometheus = "=0.14.0"
serde = { version = "=1.0.229", features = ["derive"] }
serde_json = "=1.0.154"
sha2 = "=0.10.9"
sqlparser = { version = "=0.62.0", features = ["serde"] }
thiserror = "2"
tokio = { version = "=1.54.1", features = ["rt", "rt-multi-thread", "sync", "time", "macros"] }
tracing = "=0.1.44"
tracing-opentelemetry = "=0.34.0"
