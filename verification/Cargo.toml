[package]
name = "binderbinder"
version = "0.1.0"
edition = "2021"
publish = false

[dependencies]
async-trait = "0.1"
bitflags = "2"
byteorder = "1"
dashmap = "6"
libc = "0.2"
rustix = { version = "1", features = ["fs", "mm", "process"] }
thiserror = "2"
tokio = { version = "1", features = ["net", "rt-multi-thread", "sync", "time"] }
tokio-util = "0.7"
tracing = "0.1"
