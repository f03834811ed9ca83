[package]
name = "winhex"
version = "0.1.0"
edition = "2021"
publish = false

[dependencies]
bstr = "*"
clap = { version = "*", features = ["derive"] }
clap-num = "*"
colored = "*"
