[package]
name = "kv_typed"
version = "0.1.0"
edition = "2021"
publish = false

[dependencies]
arrayvec = "0.7"
bincode = "1.3"
dubp = "*"
serde = { version = "1", features = ["derive"] }
serde_json = "1"
sled = "0.34"
smallvec = { version = "1", features = ["serde"] }
