[package]
name = "destiny_report"
version = "0.1.0"
edition = "2021"
publish = false

[dependencies]
chrono = "0.4"
serde = { version = "1", features = ["derive"] }
serde_json = "1"
clap = { version = "4", features = ["derive"] }
google-drive3 = "5"
google-sheets4 = "5"
tokio = { version = "1", features = ["macros", "rt-multi-thread"] }
