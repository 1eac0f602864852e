[package]
name = "fhe_aes"
version = "0.1.0"
edition = "2021"
publish = false

[dependencies]
tfhe = "=1.8.1"
aligned-vec = "=0.6.4"
bincode = "=1.3.3"
serde = "=1.0.229"
rand = "=0.10.3"
aes = "=0.9.3"
