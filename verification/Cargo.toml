[package]
name = "rpk"
version = "0.1.0"
edition = "2021"
publish = false

[dependencies]
anyhow = "1"
ariadne = "0.4"
chrono = "0.4"
clap = { version = "4", features = ["derive"] }
futures-lite = "2"
nusb = "0.1"
