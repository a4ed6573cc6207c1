[package]
name = "fv1_asm"
version = "0.1.0"
edition = "2021"
publish = false

[dependencies]
clap = { version = "4", features = ["derive"] }
logos = "*"
miette = { version = "7", features = ["fancy"] }
thiserror = "*"
