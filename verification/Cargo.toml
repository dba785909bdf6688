[package]
name = "mmr_oracle"
version = "0.1.0"
edition = "2021"
publish = false

[dependencies]
ckb-merkle-mountain-range = "0.5"
log = "0.4"
env_logger = "*"
rusqlite = "*"
