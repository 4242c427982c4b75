[package]
name = "wolfpack"
version = "0.1.0"
edition = "2021"
publish = false

[dependencies]
bichannel = "*"
git2 = { version = "*", default-features = false }
