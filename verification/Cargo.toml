[package]
name = "shareables"
version = "0.1.0"
edition = "2021"
publish = false

[dependencies]
chrono = "0.4"
serde = { version = "1", features = ["derive"] }
tokio = { version = "1", features = ["full"] }
reqwest = { version = "0.11", features = ["json", "gzip"] }
mysql = "24"
envy = "0.4"
axum = "0.5"
askama = "0.11"
tower = { version = "0.4", features = ["timeout"] }
tower-http = { version = "0.3", features = ["add-extension", "trace"] }
tracing = "0.1"
tracing-subscriber = { version = "0.3", features = ["env-filter", "json"] }
opentelemetry = "0.17"
opentelemetry-otlp = "0.10"
tracing-opentelemetry = "0.17"
tonic = "0.6"
