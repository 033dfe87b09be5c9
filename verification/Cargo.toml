[package]
name = "nym"
version = "0.1.0"
edition = "2021"
publish = false

[dependencies]
anyhow = "1"
bimap = "0.6"
blake3 = { version = "1", features = ["pure"] }
chrono = "0.4"
console = "0.15"
dialoguer = "0.11"
faccess = "0.2"
indicatif = "0.17"
itertools = "0.10"
lazy_static = "1"
md5 = "0.7"
normpath = "1"
regex = "1"
structopt = "0.3"
textwrap = "0.16"
thiserror = "1"
unicode-width = "0.1"
walkdir = "2"
