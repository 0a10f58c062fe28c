[package]
name = "root_keys"
version = "0.1.0"
edition = "2021"
publish = false

[dependencies]
aes = "*"
sha2 = "*"
bcrypt = "*"
ed25519-dalek = { version = "*", features = ["digest"] }
