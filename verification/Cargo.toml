[package]
name = "rcb"
version = "0.1.0"
edition = "2021"
publish = false

[dependencies]
kib = "*"
clap = "*"
toml = "*"
serde = "*"
serde_derive = "*"
serde_json = "*"
chrono = "*"
rand = "*"
rayon = "*"
term_size = "*"
ring = "*"
data-encoding = "*"
