[package]
name = "calc_runner"
version = "0.1.0"
edition = "2021"
publish = false

[dependencies]
chrono = "0.4"
uuid = { version = "1", features = ["v4"] }
axum = "0.7"
tokio = { version = "1", features = ["rt-multi-thread", "macros", "net", "time", "sync"] }
deadpool-redis = "0.18"
serde = { version = "1", features = ["derive"] }
serde_json = "1"
