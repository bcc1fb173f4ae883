[package]
name = "ics999_core"
version = "0.1.0"
edition = "2021"
publish = false

[dependencies]
cosmwasm-std = { version = "1.5", features = ["stargate", "ibc3", "cosmwasm_1_2"] }
cw2 = "1"
cw-utils = "1"
thiserror = "1"
serde = { version = "1", features = ["derive"] }
