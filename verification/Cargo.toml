[package]
name = "topic_sync"
version = "0.1.0"
edition = "2021"
publish = false

[dependencies]
anyhow = "*"
chrono = { version = "*", default-features = false, features = ["clock"] }
data-encoding = "*"
futures-lite = "*"
iroh = { version = "*", default-features = false }
iroh-blobs = { version = "*", default-features = false }
iroh-gossip = { version = "*", default-features = false, features = ["net"] }
rand = "*"
serde = { version = "*", features = ["derive"] }
serde_json = "*"
tokio = { version = "*", features = ["rt-multi-thread", "sync", "time", "macros"] }
tokio-util = "*"
