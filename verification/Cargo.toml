[package]
name = "rdsgen"
version = "0.1.0"
edition = "2021"
publish = false

[dependencies]
num-bigint = "=0.4.8"
num-traits = "=0.2.19"
md5 = "=0.7.0"
sha1 = "=0.10.7"
rand = "=0.8.8"
anyhow = "=1.0.104"
clap = { version = "=4.6.7", features = ["derive"] }
ratatui = "0.26"
crossterm = "0.27"
