[package]
name = "pinggraph"
version = "0.1.0"
edition = "2021"
publish = false

[dependencies]
arraydeque = "0.4"
crossterm = "*"
rasciigraph = "*"
terminal_size = "*"
tokio = { version = "1", features = ["full"] }
tokio-icmp-echo = "*"
tokio-stream = "*"
winping = "*"
yata = "*"
