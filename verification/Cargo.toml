[package]
name = "void"
version = "0.1.0"
edition = "2021"
publish = false

[dependencies]
anyhow = "1"
base64 = "0.22"
bip39 = "2"
chacha20poly1305 = "0.10"
curve25519-dalek = { version = "4", features = ["legacy_compatibility"] }
ed25519-dalek = { version = "2", features = ["rand_core"] }
hex = "0.4"
hkdf = "0.12"
percent-encoding = "2"
postcard = { version = "1", features = ["alloc"] }
qrcode = { version = "0.14", default-features = false, features = ["svg"] }
rand_core = { version = "0.6", features = ["getrandom"] }
rusqlite = { version = "0.31", features = ["bundled"] }
serde = { version = "1", features = ["derive"] }
serde_json = "1"
sha2 = "0.10"
sha3 = "0.10"
thiserror = "1"
tokio = { version = "1", features = ["full"] }
tokio-socks = "0.5"
tracing = "0.1"
tracing-subscriber = "0.3"
ulid = "1"
x25519-dalek = { version = "2", features = ["static_secrets"] }
