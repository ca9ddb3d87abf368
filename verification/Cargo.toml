[package]
name = "jaesve"
version = "0.1.0"
edition = "2021"
publish = false

[dependencies]
regex = "1"
serde_json = { version = "1", features = ["preserve_order"] }
serde = { version = "1", features = ["derive"] }
toml = "0.5"
structopt = "0.2"
clap = "2"
failure = "0.1"
