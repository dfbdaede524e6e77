[package]
name = "journal_rag"
version = "0.1.0"
edition = "2021"
publish = false

[dependencies]
anyhow = "=1.0.104"
chrono = { version = "=0.4.45", default-features = false, features = ["clock", "serde", "std"] }
llama-cpp-2 = { version = "=0.1.160", default-features = false }
log = "=0.4.34"
reqwest = { version = "=0.12.28", default-features = false, features = ["json"] }
serde = { version = "=1.0.229", features = ["derive"] }
serde_json = "=1.0.154"
sqlx = { version = "=0.8.6", default-features = false, features = ["migrate", "runtime-tokio", "sqlite"] }
tokio = { version = "=1.54.1", features = ["sync", "time"] }
uuid = { version = "=1.29.0", features = ["v4"] }
