[package]
name = "corral"
version = "0.1.0"
edition = "2021"
publish = false

[dependencies]
crossterm = "0.28"
inotify = "0.11"
ksni = { version = "0.3", features = ["blocking"] }
libc = "0.2"
ratatui = "0.29"
serde_json = "1"
signal-hook = "0.3"
x11rb = "0.13"
