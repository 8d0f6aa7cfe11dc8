[package]
name = "loggytracy"
version = "0.1.0"
edition = "2021"
publish = false

[dependencies]
crc32fast = "*"
snap = "*"
chrono = "*"
uuid = { version = "*", features = ["v4"] }
url = "*"
serde = { version = "*", features = ["derive"] }
serde_json = "*"
prost = "*"
prost-types = "*"
tokio = { version = "*", features = ["full"] }
axum = "*"
tonic = "*"
opentelemetry-proto = { version = "*", features = ["gen-tonic", "trace", "logs"] }
tracing = "*"
