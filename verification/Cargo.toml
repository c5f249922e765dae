[package]
name = "file_tree"
version = "0.1.0"
edition = "2021"
publish = false

[dependencies]
bytes = "=1.12.1"
chrono = "=0.4.45"
clap = "=4.6.7"
colored = "=3.1.1"
env_logger = "=0.11.11"
log = "=0.4.34"
snafu = "=0.9.2"
