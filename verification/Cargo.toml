[package]
name = "constantinople"
version = "0.1.0"
edition = "2021"
publish = false

[dependencies]
axum = "=0.8.9"
bytes = "=1.12.1"
clap = { version = "4", features = ["derive"] }
commonware-codec = "=2026.10.0"
commonware-cryptography = "=2026.10.0"
commonware-deployer = { version = "=2026.10.0", default-features = false }
commonware-formatting = "=2026.10.0"
commonware-math = "=2026.10.0"
commonware-p2p = "=2026.10.0"
commonware-parallel = "=2026.10.0"
commonware-runtime = "=2026.10.0"
commonware-storage = "=2026.10.0"
commonware-utils = "=2026.10.0"
futures = "0.3"
rand = "=0.10.3"
rand_core = "=0.10.1"
reqwest = { version = "=0.13.5", default-features = false, features = ["json"] }
serde = { version = "=1.0.229", features = ["derive"] }
serde_json = "=1.0.154"
serde_yaml = "*"
tokio = { version = "=1.54.1", features = ["full"] }
tower-http = { version = "*", features = ["cors"] }
tracing = "0.1"
tracing-opentelemetry = "=0.33.0"
tracing-subscriber = { version = "*", features = ["env-filter", "json"] }
