[package]
name = "unstake_quote"
version = "0.1.0"
edition = "2021"
publish = false

[dependencies]
itertools = "=0.15.0"
spl-stake-pool = "=2.2.0"
solana-pubkey = { version = "=4.4.0", features = ["curve25519"] }
anyhow = "=1.0.104"
clap = "=4.6.7"
tokio = { version = "=1.54.1", features = ["macros", "rt-multi-thread"] }
