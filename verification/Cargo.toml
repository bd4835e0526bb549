[package]
name = "fips_browser"
version = "0.1.0"
edition = "2021"
publish = false

[dependencies]
bech32 = "0.11"
chacha20poly1305 = "0.10"
futures = "0.3"
getrandom = { version = "0.2", features = ["js"] }
hex = "0.4"
hkdf = "0.12"
js-sys = "0.3"
k256 = "0.13"
rand_core = { version = "0.6", features = ["getrandom"] }
serde = { version = "1", features = ["derive"] }
serde-wasm-bindgen = "0.6"
sha2 = "0.10"
simple-dns = "*"
tokio = { version = "1", features = ["full"] }
tokio-tungstenite = "*"
tracing = "0.1"
wasm-bindgen = "0.2"
wtransport = { version = "*", features = ["dangerous-configuration", "quinn"] }
