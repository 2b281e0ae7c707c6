[package]
name = "dex_indexer"
version = "0.1.0"
edition = "2021"
publish = false

[dependencies]
sqlx = { version = "=0.7.4", default-features = false, features = ["rust_decimal"] }
num-traits = "=0.2.19"
bs58 = "=0.5.1"
solana-sdk = "=1.10.0"
serde = { version = "=1.0.229", features = ["derive"] }
serde_json = "=1.0.154"
anyhow = "=1.0.104"
dotenv = "=0.15.0"
futures = "=0.3.34"
postgrest = "=1.6.0"
redis = "=0.23.5"
reqwest = "=0.11.27"
tokio = { version = "=1.54.1", features = ["full"] }
tracing = "=0.1.44"
tracing-subscriber = "=0.3.23"

[dev-dependencies]
openbook_dex = "=0.5.6"
