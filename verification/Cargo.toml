[package]
name = "enventory"
version = "0.1.0"
edition = "2021"
publish = false

[dependencies]
clap = { version = "4", features = ["env", "string"] }
inventory = "0.3"
