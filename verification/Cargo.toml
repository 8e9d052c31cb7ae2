[package]
name = "balancebeam"
version = "0.1.0"
edition = "2021"
publish = false

[dependencies]
rand = "*"
clap = { version = "*", features = ["derive"] }
http = "*"
log = "*"
pretty_env_logger = "*"
threadpool = "*"
crossbeam-channel = "*"
nix = { version = "*", features = ["ptrace", "signal", "process"] }
rustyline = "*"
