[package]
name = "rolldown_core"
version = "0.1.0"
edition = "2021"
publish = false

[dependencies]
index_vec = "*"
rayon = "*"
oxc_resolver = "*"
