[package]
name = "task_scheduler"
version = "0.1.0"
edition = "2021"
publish = false

[dependencies]
mlua = { version = "*", features = ["lua54", "vendored"] }
tokio = { version = "*", features = ["rt", "time", "macros"] }
futures-util = "*"
