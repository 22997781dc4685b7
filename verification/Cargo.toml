[package]
name = "cw20_pro"
version = "0.1.0"
edition = "2021"
publish = false

[dependencies]
cosmwasm-schema = "=2.3.5"
cosmwasm-std = { version = "=2.3.5", features = ["stargate"] }
cw2 = "=2.0.0"
cw20 = "=2.0.0"
cw20-base = "=2.0.0"
cw-storage-plus = "=2.0.0"
thiserror = "=1.0.69"
