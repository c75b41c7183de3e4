[package]
name = "liquidation_monitor"
version = "0.1.0"
edition = "2021"
publish = false

[dependencies]
anyhow = "=1.0.104"
async-channel = "=1.9.0"
bs58 = "=0.4.0"
bytemuck = "1"
fixed = "1"
log = "=0.4.34"
serde = "1"
serde_derive = "1"
serum_dex = { version = "0.5", features = ["no-entrypoint"] }
solana-logger = "1.10"
solana-sdk = "1.10"
tokio = { version = "1", features = ["macros", "rt-multi-thread", "sync", "time", "net", "io-util"] }
toml = "0.5"
