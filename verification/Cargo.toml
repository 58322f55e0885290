[package]
name = "swapbytes"
version = "0.1.0"
edition = "2021"
publish = false

[dependencies]
serde_cbor = "0.11"
serde = { version = "1", features = ["derive"] }
libp2p = { version = "0.53", features = ["tokio", "tcp", "noise", "yamux", "gossipsub", "mdns", "kad", "request-response", "cbor", "macros"] }
tokio = { version = "1", features = ["full"] }
futures = "0.3"
