[package]
name = "ijoka"
version = "0.1.0"
edition = "2021"
publish = false

[dependencies]
serde = { version = "*", features = ["derive"] }
serde_json = "*"
chrono = "*"
uuid = { version = "*", features = ["v4"] }
urlencoding = "*"
axum = "*"
tokio = { version = "*", features = ["rt-multi-thread", "macros", "net", "sync", "time"] }
tower-http = { version = "*", features = ["cors"] }
rusqlite = { version = "*", features = ["bundled"] }
notify = "*"
notify-debouncer-mini = "*"
dirs = "*"
glob = "*"
