[package]
name = "vrift"
version = "0.1.0"
edition = "2021"
publish = false

[dependencies]
blake3 = "1"
libc = "0.2"
serde = { version = "1", features = ["derive"] }
bincode = "1"
rkyv = "0.8"
memmap2 = "0.9"
thiserror = "2"
anyhow = "1"
dirs = "*"
nix = { version = "*", features = ["mount", "sched", "fs"] }
tokio = { version = "1", features = ["io-util", "net", "time", "rt", "macros"] }
tracing = "0.1"
dashmap = "*"
heed = "*"
