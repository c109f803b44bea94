[package]
name = "distributed-api-layer"
version = "0.1.0"
edition = "2021"
publish = false

[dependencies]
axum = "0.8"
tokio = { version = "1", features = ["full"] }
futures = "0.3"
redis = { version = "*", features = ["tokio-comp", "connection-manager", "cluster-async"] }
rskafka = "*"
chrono = "0.4"
serde = { version = "1", features = ["derive"] }
serde_json = "1"
tonic = "0.12"
prost = "0.13"
tracing = "0.1"
tracing-subscriber = { version = "0.3", features = ["env-filter"] }
