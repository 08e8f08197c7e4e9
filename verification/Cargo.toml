[package]
name = "emissary"
version = "0.1.0"
edition = "2021"
publish = false

[dependencies]
bytes = "1"
sha2 = "0.10"
hmac = "0.12"
chacha20poly1305 = "0.10"
chacha20 = "0.9"
x25519-dalek = "2"
rand_core = { version = "=0.6.4", features = ["getrandom"] }
zeroize = "1"
thingbuf = "0.1"
tokio = { version = "1", features = ["rt", "fs", "io-util", "time", "sync", "macros"] }
reqwest = { version = "0.12", default-features = false }
futures = "0.3"
tracing = "0.1"
