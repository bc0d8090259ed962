[package]
name = "pubky_messenger"
version = "0.1.0"
edition = "2021"
publish = false

[dependencies]
pkarr = "*"
pubky = "*"
pubky-common = "*"
blake3 = "*"
sha2 = "*"
hkdf = "*"
chacha20poly1305 = "*"
x25519-dalek = { version = "*", features = ["static_secrets"] }
curve25519-dalek = "*"
ed25519-dalek = "*"
hex = "*"
base64 = "0.13"
uuid = { version = "*", features = ["v4"] }
rand_core = { version = "*", features = ["getrandom"] }
tokio = { version = "*", features = ["full"] }
futures = "*"
