[package]
name = "betting_market"
version = "0.1.0"
edition = "2021"
publish = false

[dependencies]
solana-program = "1.18"
spl-token = { version = "4.0", default-features = false, features = ["no-entrypoint"] }
pyth-client = "0.2"
arrayref = "0.3"
thiserror = "1.0"
