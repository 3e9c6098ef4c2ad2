[package]
name = "btrader"
version = "0.1.0"
edition = "2021"
publish = false

[dependencies]
binance = "*"
console = "*"
indicatif = "*"
rayon = "*"
serde = { version = "*", features = ["derive"] }
serde_json = "*"
telegram-bot = "*"
tokio = { version = "*", features = ["full"] }
