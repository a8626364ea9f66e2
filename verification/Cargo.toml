[package]
name = "alliance_nft_collection"
version = "0.1.0"
edition = "2021"
publish = false

[dependencies]
terra-proto-rs = "=5.2.0"
cosmwasm-std = { version = "=2.3.5", features = ["stargate"] }
cw721 = "=0.22.0"
cw721-base = "=0.22.0"
serde = { version = "*", features = ["derive"] }
