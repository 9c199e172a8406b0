[package]
name = "crypto_primitives"
version = "0.1.0"
edition = "2021"
publish = false

[dependencies]
num-bigint = "0.4"
sha2 = "0.10"
rsa = "0.9"
rand = "0.8"
wasm-bindgen = "0.2"
web-sys = { version = "0.3", features = ["console"] }
