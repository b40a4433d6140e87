[package]
name = "web_rwkv"
version = "0.10.0"
edition = "2021"
publish = false

[dependencies]
ahash = "=0.8.12"
bytemuck = { version = "=1.25.2", features = ["extern_crate_alloc"] }
half = "=2.7.1"
log = "0.4"
regex = "=1.13.1"
safetensors = "=0.6.2"
serde = { version = "=1.0.229", features = ["derive"] }
serde_json = { version = "=1.0.154", features = ["raw_value"] }
thiserror = "=2.0.21"
wasm-bindgen = "=0.2.130"
