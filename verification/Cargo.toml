[package]
name = "stac_cli"
version = "0.1.0"
edition = "2021"
publish = false

[dependencies]
url = "*"
stac = "*"
serde_json = "*"
tokio = { version = "*", features = ["rt-multi-thread", "macros", "fs", "io-util"] }
reqwest = { version = "*", default-features = false, features = ["json"] }
clap = { version = "*", features = ["derive"] }
console = "*"
indicatif = "*"
