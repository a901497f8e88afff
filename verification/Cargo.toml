[package]
name = "movey_resolver"
version = "0.1.0"
edition = "2021"
publish = false

[dependencies]
anyhow = "*"
clap = "*"
reqwest = { version = "*", default-features = false, features = ["blocking"] }
