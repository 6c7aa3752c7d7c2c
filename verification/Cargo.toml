[package]
name = "coa_converter_lib"
version = "0.1.0"
edition = "2021"
publish = false

[dependencies]
multimap = { version = "0.8", default-features = false }
image = "0.24"
rscolorq = "0.2"
clap = "3"
wasm-bindgen = "0.2"
wasm-bindgen-futures = "0.4"
console_error_panic_hook = "0.1"
