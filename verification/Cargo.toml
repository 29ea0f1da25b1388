[package]
name = "skchain"
version = "0.1.0"
edition = "2021"
publish = false

[dependencies]
libipld = "0.12"
rocksdb = { version = "0.20", default-features = false }
parking_lot = "0.12"
ed25519-dalek = "1"
bincode = "1"
num-bigint = "0.4"
num = "0.4"
num-traits = "0.2"
serde = "1"
hash-db = "0.15"
memory-db = "0.31"
trie-db = "0.24"
trie-root = "0.17"
parity-scale-codec = "3"
anyhow = "1"
fnv = "1"
env_logger = { version = "0.10", default-features = false }

[dev-dependencies]
tempdir = "0.3"
