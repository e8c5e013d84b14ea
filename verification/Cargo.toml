[package]
name = "voxel_server"
version = "0.1.0"
edition = "2021"
publish = false

[dependencies]
async-trait = "0.1"
base64 = "0.13"
bincode = "1.3"
bytes = "1"
futures = "0.3"
generational-arena = "0.2"
serde = { version = "1", features = ["derive"] }
tokio = { version = "1", features = ["net", "io-util", "sync", "rt", "rt-multi-thread"] }
tokio-util = { version = "0.7", features = ["codec"] }
