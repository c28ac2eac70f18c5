[package]
name = "aw_inbox"
version = "0.1.0"
edition = "2021"
publish = false

[dependencies]
chrono = { version = "0.4", features = ["serde"] }
serde = { version = "1", features = ["derive"] }
serde_json = "1"
rusqlite = { version = "0.31", features = ["chrono"] }
rocket = { version = "0.5", features = ["json"] }
tokio = { version = "1", features = ["rt"] }
