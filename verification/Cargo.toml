[package]
name = "mcpg-cloud"
version = "0.1.0"
edition = "2021"
publish = false

[dependencies]
url = "2"
uuid = "1"
anyhow = "1"
chrono = { version = "0.4", default-features = false, features = ["serde", "std", "clock"] }
clap = { version = "4", features = ["derive", "env"] }
futures = "0.3"
reqwest = { version = "0.12", default-features = false, features = ["json", "stream", "rustls-tls"] }
serde = { version = "1", features = ["derive"] }
serde_json = "1"
tokio = { version = "1", features = ["macros", "rt-multi-thread"] }
tracing-subscriber = { version = "0.3", features = ["env-filter", "json"] }
