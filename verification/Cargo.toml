[package]
name = "eternal_monitor"
version = "0.3.0"
edition = "2021"
publish = false

[dependencies]
getrandom = "=0.3.4"
subtle = "=2.6.1"
semver = "=1.0.28"
plist = "=1.10.3"
serde = { version = "=1.0.229", features = ["derive"] }
serde_json = "=1.0.154"
tokio = { version = "=1.54.1", features = ["rt-multi-thread", "net", "io-util", "time", "macros", "sync"] }
tracing = "=0.1.44"
tracing-subscriber = "0.3"
tracing-appender = "0.2"
once_cell = "1"
parking_lot = "0.12"
socket2 = "0.6"
ureq = { version = "3", features = ["json"] }
