[package]
name = "swhid"
version = "0.1.0"
edition = "2021"
publish = false

[dependencies]
hex = "0.4"
sha1collisiondetection = "*"
clap = { version = "4", features = ["derive"] }
thiserror = "1"
git2 = { version = "*", default-features = false }
