[package]
name = "tw_celoxis"
version = "0.1.0"
edition = "2021"
publish = false

[dependencies]
chrono = { version = "=0.4.45", features = ["serde"] }
serde = { version = "=1.0.229", features = ["derive"] }
serde_json = "=1.0.154"
reqwest = { version = "=0.12.28", features = ["blocking", "json"] }
inquire = { version = "=0.7.5", features = ["date"] }
directories = "=5.0.1"
dirs = "=5.0.1"
