[package]
name = "diff_schema"
version = "0.1.0"
edition = "2021"
publish = false

[dependencies]
anyhow = "=1.0.104"
clap = "=4.6.7"
mysql = { version = "=28.0.3", default-features = false, features = ["default-rust"] }
