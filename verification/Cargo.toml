[package]
name = "cw_code_id_registry"
version = "0.1.0"
edition = "2021"
publish = false

[dependencies]
cosmwasm-std = "*"
cw-storage-plus = "*"
cw2 = "*"
serde = { version = "*", features = ["derive"] }
thiserror = "*"
