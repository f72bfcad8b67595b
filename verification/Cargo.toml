[package]
name = "ferumfs"
version = "0.1.0"
edition = "2021"
publish = false

[dependencies]
crc32fast = "1"
bincode = { version = "2", features = ["serde"] }
serde = { version = "1", features = ["derive"] }
dashmap = "6"
thiserror = "2"
tokio = { version = "1", features = ["fs", "io-util", "sync", "rt", "rt-multi-thread", "macros"] }
tracing = "0.1"
fuse3 = { version = "0.8", features = ["tokio-runtime", "unprivileged"] }
futures-util = "0.3"
libc = "0.2"
bytes = "1"
