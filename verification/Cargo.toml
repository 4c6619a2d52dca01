[package]
name = "agent-bookkeeper"
version = "0.1.0"
edition = "2021"
publish = false

[dependencies]
blake3 = "1"
libc = "0.2"
rusqlite = { version = "*", features = ["bundled", "backup"] }
serde_json = { version = "1", features = ["float_roundtrip"] }
thiserror = "2"
ureq = "2"
uuid = { version = "1", features = ["v4"] }

[dev-dependencies]
tempfile = "3"
