[package]
name = "fuscum"
version = "0.1.0"
edition = "2021"
publish = false

[dependencies]
anyhow = "*"
ast-grep-core = "*"
ast-grep-language = "*"
clap = { version = "*", features = ["derive"] }
clap_complete = "*"
glob = "*"
num-modular = "*"
rayon = "*"
rinja = "*"
serde = { version = "*", features = ["derive"] }
serde_json = "*"
tempfile = "*"
typed-builder = "*"
walkdir = "*"
zip-extract = "*"
