[package]
name = "libra"
version = "0.1.0"
edition = "2021"
publish = false

[dependencies]
async-trait = "0.1"
clap = { version = "4", features = ["derive"] }
dagrs = "*"
dirs = "*"
git-internal = "*"
serde_json = "1"
tracing = "0.1"
