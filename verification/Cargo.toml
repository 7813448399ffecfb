[package]
name = "tsgo-wasm"
version = "0.1.0"
edition = "2021"
publish = false

[dependencies]
anyhow = "=1.0.104"
async-trait = "=0.1.92"
bytes = "=1.12.1"
serde = { version = "=1.0.229", features = ["derive"] }
serde_json = "=1.0.154"
sha2 = "0.10"
tokio = { version = "=1.54.1", default-features = false, features = ["io-util"] }
ureq = "2"
wasmtime = { version = "45", default-features = false, features = ["runtime", "cranelift", "std", "anyhow", "threads", "parallel-compilation"] }
wasmtime-wasi = { version = "45", default-features = false, features = ["p1", "p2"] }
zstd = "0.13"
