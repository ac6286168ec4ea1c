[package]
name = "task_runner"
version = "0.1.0"
edition = "2021"
publish = false

[dependencies]
anyhow = "*"
axum = "*"
dotenvy = "*"
futures = "*"
serde = { version = "*", features = ["derive"] }
time = { version = "=0.3.55", features = ["std", "formatting", "parsing"] }
tokio = { version = "*", features = ["rt-multi-thread", "macros", "signal", "sync", "net", "time"] }
tokio-stream = { version = "*", features = ["sync"] }
tower = "*"
tower-http = { version = "*", features = ["fs", "set-header", "util"] }
