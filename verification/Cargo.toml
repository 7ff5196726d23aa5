[package]
name = "json2nix"
version = "0.1.0"
edition = "2021"
publish = false

[dependencies]
clap = { version = "=4.6.7", features = ["derive"] }
codee = "0.2"
leptos = { version = "=0.6.15", features = ["csr"] }
leptos-use = "0.13"
serde_json = { version = "=1.0.154", features = ["preserve_order"] }
wasm-bindgen = "=0.2.129"
