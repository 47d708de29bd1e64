[package]
name = "lkdots"
version = "0.1.0"
edition = "2021"
publish = false

[dependencies]
age = "0.10"
anyhow = "1"
atomicwrites = "0.4"
colored = "*"
env_logger = "*"
log = "0.4"
pathdiff = "0.2"
permissions = "*"
rayon = "1"
rpassword = "*"
serde = { version = "1", features = ["derive"] }
shellexpand = "3"
structopt = "0.3"
symlink = "0.1"
toml = "*"
walkdir = "2"
