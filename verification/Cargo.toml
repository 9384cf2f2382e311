[package]
name = "post_extract"
version = "0.1.0"
edition = "2021"
publish = false

[dependencies]
clap = { version = "*", features = ["derive"] }
color-eyre = "*"
ego-tree = "*"
indicatif = { version = "*", features = ["rayon"] }
itertools = "*"
jiff = { version = "*", features = ["serde"] }
rayon = "*"
scraper = "*"
serde = { version = "*", features = ["derive"] }
serde_json = "*"
