[package]
name = "placeclient"
version = "0.1.0"
edition = "2021"
publish = false

[dependencies]
byteorder = "1"
chrono = "0.4"
serde_json = "1"
tar = "0.4"
flate2 = "1"
tokio = { version = "1", features = ["rt-multi-thread", "macros", "sync"] }
reqwest = { version = "0.11", default-features = false }
websocket = { version = "0.26", default-features = false, features = ["sync-ssl"] }
miniquad = "0.3"
glam = "0.20"
