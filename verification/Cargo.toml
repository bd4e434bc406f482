[package]
name = "scp_chat"
version = "0.1.0"
edition = "2021"
publish = false

[dependencies]
chrono = "*"
tokio = { version = "*", features = ["net", "io-util", "io-std", "sync", "rt-multi-thread", "macros"] }
uuid = { version = "*", features = ["v4"] }
