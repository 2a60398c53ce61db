[package]
name = "lark"
version = "0.1.0"
edition = "2021"
publish = false

[dependencies]
indexmap = "2"
rustc-hash = "1"
serde = { version = "1", features = ["derive"] }
serde_json = "1"
languageserver-types = "*"
url = "1"
termcolor = "1"
