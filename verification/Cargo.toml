[package]
name = "rrgen"
version = "0.1.0"
edition = "2021"
publish = false

[dependencies]
regex = "1"
heck = "*"
cruet = "*"
glob = "*"
fs-err = "*"
log = "*"
thiserror = "*"
serde = { version = "1", features = ["derive"] }
serde_json = "1"
serde_yaml = "*"
minijinja = { version = "*", features = ["loader"] }
fake = { version = "*", features = ["chrono", "http", "semver"] }
