[package]
name = "multivalue"
version = "0.1.0"
edition = "2021"
publish = false

[dependencies]
walrus = "=0.19.0"
wit-text = "=0.8.0"
wit-validator = "=0.2.1"
wit-walrus = "=0.6.0"
wasm-bindgen-wasm-conventions = "=0.2.80"
