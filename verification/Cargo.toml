[package]
name = "anytls"
version = "0.1.0"
edition = "2021"
publish = false

[dependencies]
md5 = "*"
rand = "*"
sha2 = "*"
tokio = { version = "*", features = ["rt-multi-thread", "net", "io-util", "time", "sync", "macros"] }
rustls = "*"
tokio-rustls = "*"
rcgen = "*"
clap = { version = "*", features = ["derive"] }
