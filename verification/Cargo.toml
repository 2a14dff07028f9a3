[package]
name = "decision_engine"
version = "0.1.0"
edition = "2021"
publish = false

[dependencies]
wasm-bindgen = "0.2"
js-sys = "0.3"
web-sys = { version = "0.3", features = ["Window", "Performance"] }
serde = { version = "1", features = ["derive"] }
serde-wasm-bindgen = "0.6"
