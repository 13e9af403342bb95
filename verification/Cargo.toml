[package]
name = "dialang"
version = "0.1.0"
edition = "2021"
publish = false

[dependencies]
anyhow = "*"
argh = "*"
notify = "*"
strum = { version = "*", features = ["derive"] }
