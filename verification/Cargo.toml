[package]
name = "llmis"
version = "0.1.0"
edition = "2021"
publish = false

[dependencies]
serde_json = "*"
serde = { version = "*", features = ["derive"] }
tokio = { version = "*", features = ["rt-multi-thread", "macros", "sync", "net", "signal", "time"] }
axum = "*"
reqwest = { version = "*", default-features = false, features = ["json", "stream"] }
futures = "*"
tokio-stream = "*"
tower-http = { version = "*", features = ["cors"] }
uuid = { version = "*", features = ["v4"] }
async-trait = "*"
