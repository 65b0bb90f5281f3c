[package]
name = "git-manager-xml"
version = "0.1.0"
edition = "2021"
publish = false

[dependencies]
clap = { version = "*", features = ["derive"] }
serde = { version = "*", features = ["derive"] }
toml = "*"
url = { version = "*", features = ["serde"] }
