[package]
name = "collider"
version = "0.1.0"
edition = "2021"
publish = false

[dependencies]
const-fnv1a-hash = "=1.1.0"
dashmap = "=6.2.1"
itertools = "=0.15.0"
tracing = "=0.1.44"
proc-macro2 = "=1.0.107"
syn = { version = "=2.0.119", features = ["full"] }
quote = "=1.0.47"
