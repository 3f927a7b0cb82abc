[package]
name = "media_vault"
version = "0.1.0"
edition = "2021"
publish = false

[dependencies]
aes = "0.7"
block-modes = "0.8"
pbkdf2 = "0.12"
sha2 = "0.10"
zeroize = "1"
blurhash = "0.2"
image = { version = "0.24", default-features = false, features = ["jpeg", "png"] }
zip = { version = "0.6", default-features = false, features = ["deflate"] }
chrono = { version = "0.4", default-features = false, features = ["clock", "std"] }
walkdir = "2"
