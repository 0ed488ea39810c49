[package]
name = "gix_tix"
version = "0.1.0"
edition = "2021"
publish = false

[dependencies]
anyhow = "1"
crossterm = "0.29"
notify = "8"
ratatui = "0.29"
