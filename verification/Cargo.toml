[package]
name = "steamtop"
version = "0.1.0"
edition = "2021"
publish = false

[dependencies]
anyhow = "1"
crossterm = "0.28"
glob = "0.3"
ratatui = "0.29"
sysinfo = "0.33"
