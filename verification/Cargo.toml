[package]
name = "sync_status"
version = "0.1.0"
edition = "2021"
publish = false

[dependencies]
anyhow = "1"
chrono = "0.4"
colored = "2"
log = "0.4"
md5 = "0.7"
timeago = { version = "0.4", default-features = false }
unicode-width = "0.1"
