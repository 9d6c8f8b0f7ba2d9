[package]
name = "photodedupe"
version = "0.1.0"
edition = "2021"
publish = false

[dependencies]
image = "*"
clap = { version = "*", features = ["derive"] }
walkdir = "*"
indicatif = "*"
threadpool = "*"
