[package]
name = "fwob"
version = "0.1.0"
edition = "2021"
publish = false

[dependencies]
anyhow = "1"
clap = { version = "4", features = ["derive"] }
pathdiff = "0.2"
serde_json = "1"
tempfile = "3"
thiserror = "2"
unicode-width = "0.2"
