[package]
name = "dsm_sdk"
version = "0.1.0"
edition = "2021"
publish = false

[dependencies]
bip39 = "2"
chacha20poly1305 = "0.10"
rand = "0.9"
anyhow = "1"
log = "0.4"
once_cell = "1"
tokio = { version = "1", features = ["rt-multi-thread", "time", "sync", "macros"] }
