[package]
name = "nativefier"
version = "0.2.0"
edition = "2021"
publish = false

[dependencies]
scraper = "*"
image = "*"
url = "*"
reqwest = { version = "*", default-features = false, features = ["blocking"] }
clap = "*"
icns = "*"
serde = { version = "*", features = ["derive"] }
serde_json = "*"
log = "*"
pretty_env_logger = "*"
