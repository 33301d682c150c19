[package]
name = "ase_swatch"
version = "0.1.0"
edition = "2021"
publish = false

[dependencies]
serde = { version = "*", features = ["derive"] }
wasm-bindgen = { version = "*", features = ["serde-serialize"] }
