[package]
name = "shelly"
version = "0.1.0"
edition = "2021"
publish = false

[dependencies]
regex = "1"
unicase = "2"
toml = "0.5"
serde = { version = "1", features = ["derive"] }
walkdir = "2"
yansi = "0.5"
structopt = "0.3"
