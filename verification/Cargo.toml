[package]
name = "chronogit"
version = "0.5.0"
edition = "2021"
publish = false

[dependencies]
bstr = "=1.13.1"
unicode-width = "=0.2.3"
clap = { version = "=4.6.7", features = ["derive"] }
url = "2"
