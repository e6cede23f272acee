[package]
name = "hamsando"
version = "0.1.0"
edition = "2021"
publish = false

[dependencies]
psl = "*"
reqwest = { version = "*", default-features = false, features = ["json", "blocking"] }
serde = { version = "*", features = ["derive"] }
serde_json = "*"
thiserror = "*"
url = "*"
strum = { version = "*", features = ["derive"] }
