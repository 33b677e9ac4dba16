[package]
name = "p2p_transport"
version = "0.1.0"
edition = "2021"
publish = false

[dependencies]
libp2p = { version = "=0.53.2", features = ["tokio", "quic", "dns", "noise", "yamux", "relay", "dcutr", "identify", "kad", "ping", "autonat", "request-response", "gossipsub", "macros"] }
bimap = "=0.6.3"
async-trait = "0.1"
tokio = { version = "1", features = ["rt-multi-thread", "sync", "time", "macros"] }
tokio-util = "0.7"
tokio-stream = "0.1"
futures = "0.3"
rand = "0.8"
log = "0.4"
