[package]
name = "turbo_mysql_core"
version = "0.1.0"
edition = "2021"
publish = false

[dependencies]
mysql_async = "*"
tokio = { version = "*", features = ["rt-multi-thread", "sync"] }
mimalloc = "*"
