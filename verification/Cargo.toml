[package]
name = "aim_collections"
version = "0.1.0"
edition = "2021"
publish = false

[dependencies]
clap = { version = "*", features = ["derive"] }
osu-db = "*"
rosu-pp = "*"
