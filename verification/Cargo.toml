[package]
name = "searchstore"
version = "0.1.0"
edition = "2021"
publish = false

[dependencies]
serde = { version = "*", features = ["derive"] }
serde_json = "*"
serde-big-array = "*"
tokio = { version = "*", features = ["macros", "rt-multi-thread", "signal", "time", "net"] }
axum = "*"
tower-http = { version = "*", features = ["cors", "fs"] }
tracing-subscriber = "*"
ollama-rs = "*"
