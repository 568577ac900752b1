[package]
name = "located_edits"
version = "0.1.0"
edition = "2021"
publish = false

[dependencies]
regex = "1"
ropey = "1"
