[package]
name = "rtcnet"
version = "0.1.0"
edition = "2021"
publish = false

[dependencies]
async-trait = "=0.1.92"
ipnet = "=2.12.2"
log = "=0.4.35"
rand = "=0.8.8"
stun = "=0.17.2"
tokio = { version = "=1.54.1", features = ["macros", "net", "rt", "sync", "time"] }
winapi = { version = "=0.3.9", features = ["basetsd", "guiddef", "minwindef", "winerror", "winnt", "ws2def", "ws2ipdef"] }
