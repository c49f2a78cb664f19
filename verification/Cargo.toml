[package]
name = "test_log"
version = "0.1.0"
edition = "2021"
publish = false

[dependencies]
proc-macro2 = "1"
quote = "1"
syn = { version = "2", features = ["full"] }
env_logger = "0.11"
tracing-subscriber = { version = "0.3", features = ["env-filter"] }
tracing-flame = "0.2"
