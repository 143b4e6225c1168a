[package]
name = "md_fixup"
version = "0.1.26"
edition = "2021"
publish = false

[dependencies]
regex = "1"
clap = "4"
serde = { version = "1", features = ["derive"] }
serde_yaml = "0.9"
dirs = "*"
atty = "0.2"
tempfile = "3"
