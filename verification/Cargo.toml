[package]
name = "price_stats"
version = "0.1.0"
edition = "2021"
publish = false

[dependencies]
chrono = "*"
clap = "*"
tokio = { version = "*", features = ["rt", "rt-multi-thread", "macros"] }
yahoo_finance_api = "*"
