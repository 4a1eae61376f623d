[package]
name = "imap_next"
version = "0.1.0"
edition = "2021"
publish = false

[dependencies]
imap-codec = "2.0.0-alpha.1"
tokio = { version = "=1.54.1", features = ["io-util"] }
async-compression = { version = "=0.4.52", features = ["tokio", "deflate"] }
