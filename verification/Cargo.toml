[package]
name = "pagegraph"
version = "0.1.0"
edition = "2021"
publish = false

[dependencies]
petgraph = "*"
url = "*"
addr = "*"
adblock = "*"
xml-rs = "*"
clap = "2"
serde = { version = "1", features = ["derive"] }
serde_json = "1"
html-escape = "*"
