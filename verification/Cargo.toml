[package]
name = "tournament"
version = "0.1.0"
edition = "2021"
publish = false

[dependencies]
indexmap = "2"
rand = "0.8"
csv = "1"
serde = { version = "1", features = ["derive"] }
serde-wasm-bindgen = "*"
wasm-bindgen = "0.2"
wasm-bindgen-futures = "0.4"
gloo-net = "*"
