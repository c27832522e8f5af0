[package]
name = "abundantis"
version = "0.1.0"
edition = "2021"
publish = false

[dependencies]
dashmap = "*"
germi = "*"
glob = "*"
globset = "*"
hashbrown = "*"
indexmap = "*"
korni = "*"
lru = "*"
notify = "*"
parking_lot = "*"
serde = { version = "*", features = ["derive"] }
serde_json = "*"
serde_yaml_ng = "*"
thiserror = "*"
toml = "*"
tracing = "*"
walkdir = "*"
