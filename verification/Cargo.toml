[package]
name = "flight_telemetry"
version = "0.1.0"
edition = "2021"
publish = false

[dependencies]
chrono = "=0.4.45"
sha2 = "=0.10.9"
duckdb = { version = "=1.20000.0", default-features = false }
dji-log-parser = "=0.5.7"
serde = { version = "=1.0.229", features = ["derive"] }
serde_json = "1"
thiserror = "=1.0.69"
log = "=0.4.34"
