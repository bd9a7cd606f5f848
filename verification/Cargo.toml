[package]
name = "delegated_spend"
version = "0.1.0"
edition = "2021"
publish = false

[dependencies]
solana-program = "*"
spl-token = { version = "*", default-features = false, features = ["no-entrypoint"] }
