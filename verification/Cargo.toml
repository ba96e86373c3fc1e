[package]
name = "pixdown"
version = "0.1.0"
edition = "2021"
publish = false

[dependencies]
crc32fast = "1"
deflate = "1"
fronma = { version = "*", features = ["toml"] }
serde = { version = "1", features = ["derive"] }
wasm-bindgen = "0.2"

[dev-dependencies]
inflate = "0.4"
