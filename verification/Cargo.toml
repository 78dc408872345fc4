[package]
name = "typed_table"
version = "0.1.0"
edition = "2021"
publish = false

[dependencies]
redb = "2"
bincode = "2"
