[package]
name = "libp2p_listeners"
version = "0.1.0"
edition = "2021"
publish = false

[dependencies]
smallvec = "1"
multiaddr = "0.19"
futures = "0.3"
