[package]
name = "sabita_no_lib"
version = "0.1.0"
edition = "2021"

[dependencies]
clap = { version = "=3.0.0-beta.2", default-features = false, features = ["std", "cargo", "color"] }
