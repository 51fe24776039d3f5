[package]
name = "vloom"
version = "0.1.0"
edition = "2021"
publish = false

[dependencies]
raptorq = { version = "*", default-features = false }
wasm-bindgen = "0.2"
flutter_rust_bridge = "2"
pyo3 = "*"
