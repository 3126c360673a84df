[package]
name = "grm"
version = "0.1.0"
edition = "2021"
publish = false

[dependencies]
clap = { version = "*", features = ["derive"] }
dirs = "*"
git2 = { version = "*", default-features = false }
serde = { version = "*", features = ["derive"] }
thiserror = "*"
toml = "*"
