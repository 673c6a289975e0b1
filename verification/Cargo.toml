[package]
name = "agentdb"
version = "0.1.0"
edition = "2021"
publish = false

[dependencies]
chrono = { version = "=0.4.45", default-features = false, features = ["clock", "std"] }
uuid = { version = "=1.29.0", features = ["v4"] }
serde = { version = "=1.0.229", features = ["derive"] }
serde_json = "=1.0.154"
tokio = { version = "=1.54.1", features = ["rt-multi-thread", "macros", "sync", "time", "net"] }
clap = { version = "=4.6.7", features = ["derive"] }
axum = { version = "=0.7.9", default-features = false, features = ["http1", "json", "tokio"] }
tower-http = { version = "=0.5.2", features = ["cors"] }
tracing-subscriber = { version = "=0.3.23", features = ["env-filter", "fmt"] }
