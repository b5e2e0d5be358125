[package]
name = "booking_engine"
version = "0.1.0"
edition = "2021"
publish = false

[dependencies]
axum = "*"
tokio = { version = "*", features = ["macros", "rt-multi-thread", "net", "fs"] }
tower-http = { version = "*", features = ["fs"] }
serde = { version = "*", features = ["derive"] }
serde_json = "*"
chrono = "*"
