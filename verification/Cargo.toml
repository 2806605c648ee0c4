[package]
name = "atomic_store"
version = "0.1.0"
edition = "2021"
publish = false

[dependencies]
bincode = "1.3"
indexmap = "2"
rocksdb = { version = "0.21", default-features = false }
serde = "1"

[dev-dependencies]
tempfile = "3"
