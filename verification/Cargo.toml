[package]
name = "termdown"
version = "0.1.0"
edition = "2021"
publish = false

[dependencies]
fontdue = "*"
clap = { version = "4", features = ["derive"] }
image = { version = "*", default-features = false, features = ["png"] }
