[package]
name = "parsing"
version = "0.1.0"
edition = "2021"
publish = false

[dependencies]
calamine = "*"
csv = "*"
serde = { version = "*", features = ["derive"] }
serde_json = "*"
serde_yaml = "*"
wasm-bindgen = "*"

[dev-dependencies]
regex-lite = "*"
