[package]
name = "makefile_checker"
version = "0.1.0"
edition = "2021"
publish = false

[dependencies]
anyhow = "1"
chrono = "0.4"
colored = "2"
comfy-table = "7"
csv = "1"
dialoguer = "0.11"
dirs = "5"
futures = "0.3"
indicatif = "0.17"
regex = "1"
reqwest = { version = "0.12", default-features = false, features = ["json", "rustls-tls"] }
rust_xlsxwriter = "0.79"
semver = "1"
serde = { version = "1", features = ["derive"] }
serde_json = "1"
sha2 = "0.10"
tokio = { version = "1", features = ["full"] }
toml = "0.8"
url = "2"
urlencoding = "2"
walkdir = "2"
