[package]
name = "sonic_node"
version = "0.1.0"
edition = "2021"
publish = false

[dependencies]
anyhow = "1"
futures = "0.3"
libp2p = { version = "0.54", features = ["gossipsub", "identify", "kad", "macros", "ping", "tcp", "tls", "tokio", "yamux"] }
tokio = { version = "1", features = ["macros", "rt-multi-thread"] }
