[package]
name = "merle"
version = "0.1.0"
edition = "2021"
publish = false

[dependencies]
clap = { version = "4", features = ["derive"] }
serde_json = "1"
similar = "2"
ureq = { version = "2", features = ["json"] }
vecstore = "*"
