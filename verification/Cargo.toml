[package]
name = "redis_sync"
version = "0.1.0"
edition = "2021"
publish = false

[dependencies]
anyhow = "1"
byteorder = "1"
redis = { version = "*", default-features = false }
thiserror = "1"
