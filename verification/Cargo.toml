[package]
name = "autosched"
version = "0.1.0"
edition = "2021"
publish = false

[dependencies]
chrono = "*"
chrono-tz = "*"
cron = "*"
uuid = { version = "*", features = ["v4"] }
serde = { version = "*", features = ["derive"] }
serde_json = "*"
tokio = { version = "*", features = ["rt", "time", "macros"] }
reqwest = { version = "*", default-features = false, features = ["json"] }
sysinfo = "*"
if-addrs = "*"
pnet_datalink = "*"
