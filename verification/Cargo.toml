[package]
name = "text_layout_engine"
version = "1.0.0"
edition = "2021"
publish = false

[dependencies]
wasm-bindgen = "0.2"
