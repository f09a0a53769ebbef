[package]
name = "praxis-filter"
version = "0.1.0"
edition = "2021"
publish = false

[dependencies]
async-trait = "0.1"
bytes = "1"
dashmap = "=6.2.1"
http = "=1.5.0"
metrics = "0.24"
opentelemetry = "0.33"
serde = { version = "1", features = ["derive"] }
serde_json = "=1.0.154"
serde_yaml = "0.9"
tokio = { version = "1", features = ["rt", "time", "sync"] }
tracing = "0.1"
tracing-opentelemetry = "0.34"
zeroize = "=1.9.1"
