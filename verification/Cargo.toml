[package]
name = "xmxx_companion"
version = "0.1.0"
edition = "2021"
publish = false

[dependencies]
anyhow = "1"
curve25519-dalek = "4"
futures = "0.3"
hex = "0.4"
monero-oxide = "*"
monero-wallet = "*"
qrcode = { version = "0.14", default-features = false }
rand_chacha = "0.3"
rand_core = "0.6"
serde_json = "1"
tiny_http = "0.12"
ureq = { version = "2", features = ["json"] }
zeroize = "1"
