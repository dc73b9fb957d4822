[package]
name = "lisp"
version = "0.1.0"
edition = "2021"
publish = false

[dependencies]
clap = { version = "*", features = ["derive"] }
clap-verbosity-flag = "*"
env_logger = "*"
human-panic = "*"
serde = { version = "*", features = ["derive"] }
serde_json = "*"
