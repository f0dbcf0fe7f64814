[package]
name = "flow-rtt"
version = "0.1.0"
edition = "2021"
publish = false

[dependencies]
etherparse = "*"
hdrhistogram = { version = "7", default-features = false }
pcap = "2"
tokio = { version = "1", features = ["sync", "rt", "rt-multi-thread", "macros"] }
