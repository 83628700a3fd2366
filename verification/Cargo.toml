[package]
name = "prf_chunker"
version = "0.1.0"
edition = "2021"
publish = false

[dependencies]
aes = "=0.8.4"
aes_crypto = "=1.4.0"
anyhow = "=1.0.104"
bytemuck = "=1.25.2"
clap = { version = "=4.6.7", features = ["derive"] }
hkdf = "=0.12.4"
risc0-core = "=0.14.0"
sha2 = "=0.10.9"

[dev-dependencies]
rand = "=0.8.8"
rand_chacha = "=0.3.1"
