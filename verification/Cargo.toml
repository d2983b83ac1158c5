[package]
name = "trie_storage"
version = "0.1.0"
edition = "2021"
publish = false

[dependencies]
near-primitives = "0.15.0"
near-chain-configs = "0.15.0"
near-client-primitives = "0.15.0"
near-metrics = "0.14.0"
actix = "0.13"
ansi_term = "0.12"
anyhow = "1"
prometheus = "0.11"
serde_json = "1"
sysinfo = "0.14"
tracing = "0.1"

[dev-dependencies]
rand = "0.7"
