[package]
name = "rush"
version = "0.1.0"
edition = "2021"
publish = false

[dependencies]
num-bigint = "*"
confy = "*"
ctrlc = "*"
dialoguer = "*"
serde = { version = "*", features = ["derive"] }
serde_derive = "*"
