[package]
name = "aum_oracle"
version = "0.1.0"
edition = "2021"
publish = false

[dependencies]
cosmwasm-std = "2.2"
cosmwasm-schema = "2.2"
cw-storage-plus = "2.0"
cw2 = "2.0"
cw-ownable = "2.1"
serde = { version = "1", features = ["derive"] }
serde_json = "1"
schemars = "0.8"
thiserror = "1"
neutron-std = "*"
