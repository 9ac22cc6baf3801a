[package]
name = "lamda_red"
version = "0.1.0"
edition = "2021"
publish = false

[dependencies]
rand = "0.8"
serde = "1"
serde_derive = "1"
serde-xml-rs = "*"
cairo-rs = { version = "*", default-features = false, features = ["png"] }
