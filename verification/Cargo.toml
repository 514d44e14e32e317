[package]
name = "mount_usage"
version = "0.1.0"
edition = "2021"
publish = false

[dependencies]
nix = { version = "*", features = ["fs"] }
nu-errors = "0.44"
nu-plugin = "0.44"
nu-protocol = "0.44"
