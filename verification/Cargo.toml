[package]
name = "mcd"
version = "0.1.0"
edition = "2021"
publish = false

[dependencies]
ratatui = "0.29"
crossterm = "0.28"
tui-textarea = "0.7"
clap = { version = "4", features = ["derive"] }
itertools = "0.13"
