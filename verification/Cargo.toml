[package]
name = "karta_server"
version = "0.1.0"
edition = "2021"
publish = false

[dependencies]
fuzzy-matcher = "0.3"
uuid = { version = "1", features = ["v4", "v5", "serde"] }
axum = "0.8"
tokio = { version = "1", features = ["rt-multi-thread", "macros", "net", "fs", "sync"] }
tower-http = { version = "0.6", features = ["cors"] }
serde = { version = "1", features = ["derive"] }
serde_json = "1"
ron = "0.8"
rustyline = "14"
directories = "5"
dunce = "1"
mime_guess = "2"
trash = "5"
chrono = "0.4"
tracing-subscriber = { version = "0.3", features = ["env-filter"] }
