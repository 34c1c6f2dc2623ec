[package]
name = "gitgraph"
version = "0.1.0"
edition = "2021"
publish = false

[dependencies]
anyhow = "*"
chrono = "*"
crossterm = "*"
git2 = "*"
ratatui = "*"
