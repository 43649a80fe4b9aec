[package]
name = "rebuilderd"
version = "0.1.0"
edition = "2021"
publish = false

[dependencies]
in-toto = "*"
serde_json = "1"
tempfile = "3"
tokio = { version = "1", features = ["fs", "io-util", "macros", "rt", "time"] }
anyhow = "1"
log = "0.4"
