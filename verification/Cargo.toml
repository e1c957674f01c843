[package]
name = "saltator_cs_api"
version = "0.1.0"
edition = "2021"
publish = false

[dependencies]
axum = "0.8"
base64 = "0.22"
bytes = "1"
futures-util = "0.3"
metrics = "*"
rand = "0.8"
reqwest = { version = "0.12", default-features = false, features = ["json", "stream"] }
ruma = { version = "*", features = ["client-api-s", "push-gateway-api-c", "canonical-json"] }
serde = { version = "1", features = ["derive"] }
serde_json = "1"
tokio = { version = "1", features = ["macros", "rt", "sync", "time"] }
tower-http = { version = "0.6", features = ["cors"] }
tracing = "0.1"
