[package]
name = "cosmwasm_nft"
version = "0.1.0"
edition = "2021"
publish = false

[dependencies]
cosmwasm-std = "0.14"
schemars = "0.8"
serde = { version = "1.0", features = ["derive"] }
