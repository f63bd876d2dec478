[package]
name = "tally"
version = "0.1.0"
edition = "2021"
publish = false

[dependencies]
ulid = "=1.2.1"
base64 = "=0.22.1"
dirs = "=5.0.1"
ed25519-dalek = { version = "=2.2.0", features = ["rand_core"] }
rand_core = { version = "=0.6.4", features = ["getrandom"] }
serde = { version = "=1.0.229", features = ["derive"] }
serde_json = "=1.0.154"
serde_bytes = "=0.11.19"
reqwest = { version = "=0.12.28", default-features = false, features = ["json"] }
tokio = { version = "=1.54.1", features = ["macros", "rt-multi-thread", "sync"] }
anyhow = "=1.0.104"
futures = "=0.3.34"
worker = "=0.6.7"
js-sys = "=0.3.107"
wasm-bindgen = "=0.2.130"
serde-wasm-bindgen = "=0.6.5"
clap = { version = "4", features = ["derive"] }
