[package]
name = "forth_times_the_charm"
version = "0.1.0"
edition = "2021"
publish = false

[dependencies]
anyhow = "1"
itertools = "*"
rustyline = "*"
thiserror = "1"
