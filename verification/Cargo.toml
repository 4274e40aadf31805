[package]
name = "service_framework"
version = "0.1.0"
edition = "2021"
publish = false

[dependencies]
uuid = { version = "*", features = ["v4"] }
axum = "*"
tokio = { version = "*", features = ["rt-multi-thread", "macros", "net"] }
sqlx = { version = "*", default-features = false, features = ["runtime-tokio", "sqlite"] }
serde = { version = "*", features = ["derive"] }
serde_json = "*"
config = "*"
dotenvy = "*"
anyhow = "*"
