[package]
name = "ledger"
version = "0.1.0"
edition = "2021"
publish = false

[dependencies]
bincode = "=1.3.3"
sha2 = "=0.10.9"
rand = "=0.8.8"
rocksdb = { version = "*", default-features = false }
