[package]
name = "p2p_frame"
version = "0.1.0"
edition = "2021"
publish = false

[dependencies]
bucky-raw-codec = "*"
bucky-time = "*"
rustls = { version = "0.23", default-features = false, features = ["ring", "std"] }
tokio = { version = "1", features = ["io-util", "net", "rt", "sync", "time", "macros"] }
