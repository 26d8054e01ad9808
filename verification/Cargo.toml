[package]
name = "wikiplain"
version = "0.1.0"
edition = "2021"
publish = false

[dependencies]
clap = { version = "*", features = ["derive"] }
indicatif = "*"
reqwest = { version = "*", default-features = false, features = ["blocking", "json"] }
serde_json = "*"
url = "*"
zip = { version = "*", default-features = false, features = ["deflate"] }
