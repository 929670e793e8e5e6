[package]
name = "featurize-core"
version = "0.1.0"
edition = "2021"
publish = false

[dependencies]
bytemuck = "*"
num-traits = "*"
wasm-bindgen = "*"
candle-core = { version = "*", default-features = false }
burn = { version = "*", default-features = false }
