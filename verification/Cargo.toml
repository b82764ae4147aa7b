[package]
name = "shredstream_forwarder"
version = "0.1.0"
edition = "2021"
publish = false

[dependencies]
arc-swap = "1"
crossbeam-channel = "0.5"
dashmap = "5"
itertools = "0.14"
libc = "0.2"
log = "0.4"
rand = "0.8"
reqwest = { version = "0.11", default-features = false, features = ["blocking"] }
serde_json = "1"
solana-metrics = "~2.2"
solana-net-utils = "~2.2"
solana-packet = "~2.2"
solana-perf = "~2.2"
solana-streamer = "~2.2"
tokio = { version = "1", features = ["sync"] }
