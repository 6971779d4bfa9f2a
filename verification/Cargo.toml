[package]
name = "pkg"
version = "0.2.0"
edition = "2021"
publish = false

[dependencies]
clap = { version = "4", features = ["derive"] }
cli-table = "*"
indicatif = "*"
kdl = "6"
miette = { version = "7", features = ["fancy"] }
mlua = { version = "*", features = ["lua54", "vendored"] }
owo-colors = "*"
rpassword = "*"
rusqlite = "*"
thiserror = "*"
