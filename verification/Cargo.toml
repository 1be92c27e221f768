[package]
name = "xorfile"
version = "0.1.0"
edition = "2021"
publish = false

[dependencies]
docopt = "1.1"
getopts = "0.2"
serde = { version = "1", features = ["derive"] }
