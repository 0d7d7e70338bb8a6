[package]
name = "sensor_api"
version = "0.1.0"
edition = "2021"
publish = false

[dependencies]
anyhow = "1"
axum = "0.6"
borsh = { version = "1", features = ["derive"] }
chrono = { version = "0.4", features = ["serde"] }
dotenv = "0.15"
serde = { version = "1", features = ["derive"] }
solana-sdk = { version = "2", default-features = false }
tokio = { version = "1", features = ["macros", "rt-multi-thread", "sync", "fs"] }
tokio-postgres = { version = "0.7", features = ["with-chrono-0_4"] }
tokio-util = { version = "0.7", features = ["io"] }
tower-http = { version = "0.4", features = ["cors"] }
