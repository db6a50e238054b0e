[package]
name = "skakoui"
version = "0.1.0"
edition = "2021"
publish = false

[dependencies]
anyhow = "1"
arrayvec = "0.7"
rand = "0.8"
structopt = "0.3"
serde = { version = "1", features = ["derive"] }
serde_json = "1"
