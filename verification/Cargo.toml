[package]
name = "coyote"
version = "0.1.0"
edition = "2021"
publish = false

[dependencies]
url = "2"
serde = { version = "1", features = ["derive"] }
serde_json = "1"
reqwest = { version = "0.11", default-features = false, features = ["blocking", "rustls-tls"] }
rusqlite = "0.29"
anyhow = "1"
yew = { version = "0.17", features = ["web_sys"] }
wasm-bindgen = "0.2"
