[package]
name = "moss"
version = "0.1.0"
edition = "2021"
publish = false

[dependencies]
clap = { version = "*", features = ["derive"] }
clap_complete = "*"
clap_mangen = "*"
chrono = "*"
fs-err = "*"
nix = { version = "*", features = ["hostname"] }
dialoguer = "*"
thiserror = "*"
