[package]
name = "avi_device"
version = "0.1.0"
edition = "2021"
publish = false

[dependencies]
serde = { version = "1", features = ["derive"] }
serde_json = "1"
tokio = { version = "1", features = ["sync", "rt", "macros", "net", "time"] }
futures = "0.3"
async-trait = "0.1"
bincode = "1"
postcard = "1"
thiserror = "1"
tracing = "0.1"
heapless = "0.8"
embassy-sync = "0.6"
libp2p = { version = "0.54", features = ["gossipsub", "kad", "mdns", "identify", "request-response", "tcp", "noise", "yamux", "dns", "tokio", "macros"] }
