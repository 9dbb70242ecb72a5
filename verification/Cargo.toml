[package]
name = "coop_executor"
version = "0.1.0"
edition = "2021"
publish = false

[dependencies]
critical-section = { version = "1", features = ["std"] }
futures = { version = "0.3", default-features = false, features = ["std"] }
portable-atomic = "1"
