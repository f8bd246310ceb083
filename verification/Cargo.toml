[package]
name = "hlapi"
version = "0.1.0"
edition = "2021"
publish = false

[dependencies]
epoll-rs = "*"
termios = "*"
uuid = "*"

[dev-dependencies]
serde_json = "*"
