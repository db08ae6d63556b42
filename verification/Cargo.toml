[package]
name = "better_ls"
version = "0.1.0"
edition = "2021"
publish = false

[dependencies]
chrono = "*"
tabled = "*"
clap = { version = "*", features = ["derive"] }
owo-colors = "*"

[dev-dependencies]
serde_json = "*"
