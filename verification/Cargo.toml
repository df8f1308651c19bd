[package]
name = "eth_indexer"
version = "0.1.0"
edition = "2021"
publish = false

[dependencies]
alloy = { version = "*", default-features = false, features = ["std"] }
async-trait = "*"
clap = { version = "*", features = ["derive"] }
eyre = "*"
futures-util = "*"
serde = { version = "*", features = ["derive"] }
serde_json = "*"
sqlx = { version = "*", default-features = false, features = ["runtime-tokio", "sqlite"] }
tokio = { version = "*", features = ["full"] }
tracing = "*"
tracing-subscriber = "*"
