[package]
name = "hype"
version = "0.1.0"
edition = "2021"
publish = false

[dependencies]
pnet = "*"
rand = "*"
tokio = { version = "1", features = ["macros", "rt-multi-thread", "io-std", "io-util", "sync", "time"] }
futures = "0.3"
libc = "0.2"
dashmap = "*"
indicatif = "*"
surge-ping = "*"
reqwest = { version = "0.12", default-features = false, features = ["rustls-tls"] }
