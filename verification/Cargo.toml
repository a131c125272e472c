[package]
name = "mc_sentinel"
version = "0.1.0"
edition = "2021"
publish = false

[dependencies]
tokio = { version = "*", features = ["full"] }
bytes = "*"
async-trait = "*"
thiserror = "*"
async-minecraft-ping = "*"
