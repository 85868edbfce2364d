[package]
name = "contracts_query"
version = "0.1.0"
edition = "2021"
publish = false

[dependencies]
hex = "0.4"
anyhow = "1"
chrono = "0.4"
clap = { version = "4", features = ["derive"] }
futures = "0.3"
jsonrpsee = { version = "0.24", features = ["ws-client"] }
serde = { version = "1", features = ["derive"] }
serde_json = "1"
sp-core-hashing = "16"
tokio = { version = "1", features = ["macros", "rt-multi-thread"] }
