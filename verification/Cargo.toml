[package]
name = "snakerunner"
version = "0.1.0"
edition = "2021"
publish = false

[dependencies]
anyhow = "1"
clap = { version = "4", features = ["derive"] }
colored = "2"
itertools = "*"
rand = "0.8"
term_cursor = "*"
thiserror = "1"
