[package]
name = "kvengine"
version = "0.1.0"
edition = "2021"
publish = false

[dependencies]
bincode = "1"
bytes = "=1.12.1"
hex = "=0.4.3"
farmhash = "=1.1.5"
dashmap = "=5.5.3"
tempfile = "=3.27.0"
filetime = "=0.2.29"
quick_cache = "=0.6.24"
crossbeam = "=0.8.5"
parking_lot = "=0.12.5"
prometheus = { version = "=0.13.4", default-features = false }
rand = "0.8"
serde = { version = "1", features = ["derive"] }
thiserror = "1"
tokio = { version = "=1.54.1", features = ["rt", "rt-multi-thread", "sync", "time"] }
