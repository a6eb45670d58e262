[package]
name = "mkv_cruncher"
version = "0.1.0"
edition = "2021"
publish = false

[dependencies]
bytesize = "*"
seahash = "*"
clap = { version = "*", features = ["derive"] }
flexi_logger = "*"
indicatif = "*"
log = "*"
serde = { version = "*", features = ["derive"] }
serde_json = "*"
walkdir = "*"
