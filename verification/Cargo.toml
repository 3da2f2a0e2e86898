[package]
name = "tokscale_core"
version = "0.1.0"
edition = "2021"
publish = false

[dependencies]
jiff = "=0.2.39"
jiff-tzdb = "=0.1.8"
unicode-normalization = "=0.1.26"
sha2 = "=0.10.9"
serde = { version = "=1.0.229", features = ["derive"] }
serde_json = "=1.0.154"
rusqlite = { version = "=0.41.1", features = ["bundled"] }
chrono = "=0.4.45"
dirs = "=7.0.0"
libc = "=0.2.191"
tracing = "=0.1.44"
