[package]
name = "prisoners"
version = "0.1.0"
edition = "2021"
publish = false

[dependencies]
rand = "0.8"
clap = { version = "4", features = ["derive"] }
strum = "0.26"
strum_macros = "0.26"
