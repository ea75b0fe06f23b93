[package]
name = "jacksonify"
version = "0.1.0"
edition = "2021"
publish = false

[dependencies]
rustfft = "6"
wasm-bindgen = "0.2"
console_error_panic_hook = "0.1"
