[package]
name = "loose_objects"
version = "0.1.0"
edition = "2021"
publish = false

[dependencies]
flate2 = "1"
sha1 = "0.10"
clap = { version = "4", features = ["derive"] }
anyhow = "1"
thiserror = "1"
