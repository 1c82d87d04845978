[package]
name = "wallet_core"
version = "0.1.0"
edition = "2021"
publish = false

[dependencies]
bip32 = "0.5"
bip39 = "2"
bitcoin_hashes = "0.14"
chacha20poly1305 = "0.10"
k256 = { version = "0.13", features = ["schnorr"] }
embedded-graphics = "0.8"
embedded-graphics-simulator = { version = "0.7", default-features = false, features = ["with-sdl"] }
getrandom = "0.2"
qrcode = { version = "0.14", default-features = false }
