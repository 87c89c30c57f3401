[package]
name = "fedimint_bridge"
version = "0.1.0"
edition = "2021"
publish = false

[dependencies]
anyhow = "1"
async-trait = "0.1"
bincode = "=1.3.3"
bip39 = "2"
bitcoin = "=0.29.2"
fedimint-core = "=0.3.3"
futures = "0.3"
log = "0.4"
tokio = { version = "1", features = ["rt"] }
uuid = "1"
