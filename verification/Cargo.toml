[package]
name = "msg_log_store"
version = "0.1.0"
edition = "2021"
publish = false

[dependencies]
tokio = { version = "*", features = ["rt-multi-thread", "macros"] }
tokio-postgres = "*"
bb8 = "*"
bb8-postgres = "*"
