[package]
name = "edge_pipeline"
version = "0.1.0"
edition = "2021"
publish = false

[dependencies]
axum = "*"
deadpool-postgres = "*"
figment = { version = "*", features = ["toml"] }
http = "*"
hyper = "*"
serde = { version = "*", features = ["derive"] }
tokio = { version = "*", features = ["rt-multi-thread", "macros", "time", "net", "signal"] }
tower = "*"
tower-http = { version = "*", features = ["fs", "trace"] }
tracing = "*"
tracing-subscriber = "*"
