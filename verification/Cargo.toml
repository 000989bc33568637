[package]
name = "pair_concentrated_inj"
version = "0.1.0"
edition = "2021"
publish = false

[dependencies]
astroport = "3"
astroport-circular-buffer = "*"
cosmwasm-schema = "1"
cosmwasm-std = "1"
cw-storage-plus = "1"
cw20 = "1"
injective-cosmwasm = "*"
schemars = "*"
serde = "*"
terraswap = "*"
