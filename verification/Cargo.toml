[package]
name = "ssh_menu"
version = "0.2.1"
edition = "2021"
publish = false

[dependencies]
dirs = "5"
anyhow = "1"
clap = { version = "4", features = ["derive"] }
crossterm = "0.28"
ratatui = "0.29"
serde = { version = "1", features = ["derive"] }
time = { version = "0.3", features = ["formatting", "parsing"] }
toml = "0.8"
