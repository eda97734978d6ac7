[package]
name = "serai_signing"
version = "0.1.0"
edition = "2021"
publish = false

[dependencies]
curve25519-dalek = "=4.1.3"
sha3 = "*"
zeroize = "*"
serde = { version = "*", features = ["derive"] }
serde_json = "*"

[dev-dependencies]
hex = "*"
borsh = "*"
parity-scale-codec = "*"
