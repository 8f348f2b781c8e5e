[package]
name = "pledge"
version = "0.1.0"
edition = "2021"
publish = false

[dependencies]
axum = "=0.8.9"
axum-server = { version = "=0.7.3", features = ["tls-rustls"] }
base64 = "=0.22.1"
rust_decimal = "=1.43.0"
serde = { version = "=1.0.229", features = ["derive"] }
serde_json = "=1.0.154"
sqlx = { version = "=0.8.6", default-features = false, features = ["postgres", "runtime-tokio", "json", "time", "uuid", "rust_decimal"] }
time = "=0.3.55"
tokio = { version = "=1.54.1", features = ["rt-multi-thread", "macros", "net", "time"] }
toml = "=0.8.23"
uuid = "=1.29.0"
