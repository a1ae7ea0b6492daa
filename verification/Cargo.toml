[package]
name = "pdf_compose"
version = "0.1.0"
edition = "2021"
publish = false

[dependencies]
lopdf = "*"
wasm-bindgen = "0.2"
serde-wasm-bindgen = "0.6"
console_error_panic_hook = "0.1"
