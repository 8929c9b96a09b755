[package]
name = "whirlpool_swap"
version = "0.1.0"
edition = "2021"
publish = false

[dependencies]
rust_decimal = { version = "1", features = ["maths"] }
solana-sdk = "2"
spl-token = "7"
spl-associated-token-account = "6"
tokio = { version = "1", features = ["rt-multi-thread", "macros"] }
dotenv = "0.15"
