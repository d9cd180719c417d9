[package]
name = "redisson_cache"
version = "0.1.0"
edition = "2021"
publish = false

[dependencies]
lru = "*"
parking_lot = "*"
serde = { version = "1", features = ["derive"] }
serde_json = "1"
async-trait = "*"
redis = "*"
