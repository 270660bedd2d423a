[package]
name = "repo_check"
version = "0.1.0"
edition = "2021"
publish = false

[dependencies]
anyhow = "1"
clap = { version = "4", features = ["derive"] }
colored = "2"
dialoguer = "0.11"
rayon = "1"
serde = { version = "1", features = ["derive"] }
serde_json = "1"
trash = "3"
