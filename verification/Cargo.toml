[package]
name = "x2_colon_api"
version = "0.1.0"
edition = "2021"
publish = false

[dependencies]
regex = "=1.13.1"
serde = { version = "=1.0.229", features = ["derive"] }
serde_json = "=1.0.154"
axum = "=0.8.9"
dotenvy = "=0.15.7"
tokio = { version = "=1.54.1", features = ["macros", "rt-multi-thread"] }
tower = { version = "=0.5.3", features = ["util"] }
tower-http = { version = "=0.7.1", features = ["cors"] }
validator = { version = "=0.21.0", features = ["derive"] }
vercel_runtime = { version = "=2.4.1", features = ["axum"] }
