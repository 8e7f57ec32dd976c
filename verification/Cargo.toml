[package]
name = "signature_gen"
version = "0.1.0"
edition = "2021"
publish = false

[dependencies]
rsa = "=0.9.10"
sha2 = { version = "=0.10.9", features = ["oid"] }
rand = "=0.8.8"
num-bigint-dig = "=0.8.6"
num-traits = "=0.2.19"
noir-bignum-paramgen = "=0.1.5"
clap = "=2.34.0"
toml = "=1.1.8"
wasm-bindgen = "=0.2.129"
hyper = { version = "=1.12.0", features = ["full"] }
hyper-util = { version = "=0.1.21", features = ["full"] }
http-body-util = "=0.1.5"
tokio = { version = "=1.54.1", features = ["full"] }
serde = { version = "=1.0.229", features = ["derive"] }
serde_json = "=1.0.154"
