[package]
name = "trader-claw"
version = "0.1.0"
edition = "2021"
publish = false

[dependencies]
hmac = "0.12"
sha2 = "0.10"
hex = "0.4"
serde = { version = "1", features = ["derive"] }
serde_json = "1"
tokio = { version = "1", features = ["full"] }
reqwest = { version = "0.12", default-features = false, features = ["json", "rustls-tls"] }
chrono = "0.4"
anyhow = "1"
rusqlite = { version = "0.31", features = ["bundled"] }
rhai = { version = "1", features = ["sync"] }
rand = "0.8"
tracing = "0.1"
async-trait = "0.1"
