[package]
name = "spr"
version = "0.1.0"
edition = "2021"
publish = false

[dependencies]
clap = { version = "*", features = ["derive"] }
dialoguer = "*"
git2 = { version = "*", default-features = false }
tokio = { version = "*", features = ["process", "rt"] }
