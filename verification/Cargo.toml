[package]
name = "transfer_scan"
version = "0.1.0"
edition = "2021"
publish = false

[dependencies]
web3 = { version = "0.19", default-features = false, features = ["http"] }
tokio = { version = "1", features = ["macros", "rt-multi-thread"] }
chrono = "0.4"
