[package]
name = "jcblocktui"
version = "0.1.0"
edition = "2021"
publish = false

[dependencies]
anyhow = "1"
chrono = "0.4"
crossterm = "0.28"
jcblocks = "*"
ratatui = "0.29"
rusqlite = { version = "*", features = ["bundled"] }
