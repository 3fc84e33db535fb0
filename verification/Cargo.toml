[package]
name = "rue"
version = "0.1.0"
edition = "2021"
publish = false

[dependencies]
num-bigint = "0.4"
indexmap = "2"
thiserror = "2"
clap = { version = "4", features = ["derive"] }
anyhow = "1"
colored = "2"
glob = "0.3"
walkdir = "2"
