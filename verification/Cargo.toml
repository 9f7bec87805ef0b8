[package]
name = "rockslide"
version = "0.1.0"
edition = "2021"
publish = false

[dependencies]
constant_time_eq = "=0.3.1"
hex = "=0.4.3"
sha2 = "=0.10.9"
uuid = { version = "=1.29.0", features = ["v4"] }
sec = "=1.1.0"
axum = "=0.7.9"
tokio = { version = "=1.54.1", features = ["full"] }
tower-http = { version = "=0.5.2", features = ["trace"] }
tracing = "=0.1.44"
tracing-subscriber = { version = "=0.3.23", features = ["env-filter"] }
serde = { version = "=1.0.229", features = ["derive"] }
serde_json = "=1.0.154"
