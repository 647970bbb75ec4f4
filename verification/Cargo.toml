[package]
name = "gluon"
version = "0.6.2"
edition = "2021"
publish = false

[dependencies]
fnv = "1"
frunk_core = "*"
futures = "0.1"
itertools = "0.6"
union-find = "0.3"
