[package]
name = "bcrm_backend"
version = "0.1.0"
edition = "2021"
publish = false

[dependencies]
form_urlencoded = "1"
serde_json = "1"
serde = { version = "1", features = ["derive"] }
rusqlite = { version = "0.32", features = ["bundled"] }
axum = "0.8"
tokio = { version = "1", features = ["rt-multi-thread", "macros", "net"] }
tower-http = { version = "0.6", features = ["cors", "fs"] }
