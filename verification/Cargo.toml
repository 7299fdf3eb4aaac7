[package]
name = "steel_light"
version = "0.1.0"
edition = "2021"
publish = false

[dependencies]
rustc-hash = "2"
parking_lot = "0.12"
rayon = "1"
scc = "3"
tokio = { version = "1", features = ["rt", "rt-multi-thread", "sync", "time"] }
tokio-util = { version = "0.7", features = ["rt"] }
tracing = "0.1"
log = "0.4"
