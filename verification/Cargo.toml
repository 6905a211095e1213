[package]
name = "vdf_engine"
version = "0.1.0"
edition = "2021"
publish = false

[dependencies]
anyhow = "*"
hex = "*"
num-bigint = "*"
num-integer = "*"
num-traits = "*"
rand = "*"
rand_chacha = "*"
serde = { version = "*", features = ["derive"] }
serde_json = "*"
sha2 = "*"
toml = "*"
