[package]
name = "llm_test_api"
version = "0.1.0"
edition = "2021"
publish = false

[dependencies]
base64 = "0.22"
hmac = "0.12"
sha2 = "0.10"
serde = { version = "1", features = ["derive"] }
serde_json = "1"
uuid = { version = "1", features = ["v4"] }
worker = { version = "*", features = ["http", "axum", "d1"] }
axum = { version = "0.8", default-features = false, features = ["json", "query", "macros"] }
thiserror = "*"
tracing = "0.1"
tracing-subscriber = { version = "0.3", features = ["json", "time"] }
tracing-web = "0.1"
tower-service = "0.3"
bytes = "1"
wasm-bindgen = "0.2"
