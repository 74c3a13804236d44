[package]
name = "block_stm_core"
version = "0.1.0"
edition = "2021"
publish = false

[dependencies]
chrono = "0.4"
tokio = { version = "1", features = ["rt", "sync", "time", "macros"] }
futures = "0.3"
futures-channel = "0.3"
