[package]
name = "rag_system"
version = "0.1.0"
edition = "2021"
publish = false

[dependencies]
anyhow = "=1.0.104"
chrono = "=0.4.45"
clap = "=4.6.7"
dotenvy = "=0.15.7"
envy = "=0.4.2"
reqwest = { version = "=0.12.28", default-features = false, features = ["json"] }
rig-core = { version = "=0.31.0", default-features = false, features = ["pdf"] }
serde = { version = "=1.0.229", features = ["derive"] }
serde_json = "=1.0.154"
tokio = { version = "=1.54.1", features = ["macros", "rt-multi-thread"] }
tracing = "=0.1.44"
tracing-subscriber = "=0.3.23"
uuid = { version = "=1.29.0", features = ["v4"] }
