[package]
name = "ruby_exec_wrapper"
version = "0.1.0"
edition = "2021"
publish = false

[dependencies]
exitcode = "*"
nix = { version = "*", features = ["process"] }
