[package]
name = "lamport_commit"
version = "0.1.0"
edition = "2021"
publish = false

[dependencies]
anyhow = "=1.0.104"
plonky2 = "=0.2.2"
rand = "=0.8.8"
serde_json = "=1.0.154"
wasm-bindgen = "=0.2.129"
wasm-bindgen-futures = "0.4"
