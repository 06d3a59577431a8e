[package]
name = "prek_workspace"
version = "0.1.0"
edition = "2021"
publish = false

[dependencies]
anyhow = "*"
futures = "*"
ignore = "*"
