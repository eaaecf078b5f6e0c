[package]
name = "alchemy"
version = "0.1.0"
edition = "2021"
publish = false

[dependencies]
lambda_calculus = "*"
rand = "0.8"
rand_chacha = "0.3"
clap = { version = "4", features = ["derive"] }
serde = { version = "1", features = ["derive"] }
serde_json = "1"
