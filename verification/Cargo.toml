[package]
name = "corrode"
version = "0.1.0"
edition = "2021"
publish = false

[dependencies]
anyhow = "1"
askama = "0.12"
axum = "0.6"
chrono = { version = "0.4", default-features = false, features = ["std", "serde"] }
convert_case = "0.6"
error-stack = "0.3"
hyper = { version = "0.14", features = ["full"] }
mime = "0.3"
serde = { version = "1", features = ["derive"] }
thiserror = "1"
tokio = { version = "1", features = ["full"] }
tokio-util = { version = "0.7", features = ["io"] }
toml = "0.7"
tower-http = { version = "0.4", features = ["cors"] }
