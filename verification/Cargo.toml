[package]
name = "hwcli"
version = "0.1.0"
edition = "2021"
publish = false

[dependencies]
chrono = "0.4"
clap = "2"
colored = "2"
dirs = "5"
fern = "0.6"
log = "0.4"
nix = { version = "0.29", features = ["user"] }
rand = "0.7"
serde = "1"
serde_derive = "1"
toml = "0.5"
