[package]
name = "ckbackup"
version = "0.1.0"
edition = "2021"
publish = false

[dependencies]
toml = "0.2"
time = "0.1"
rustc-serialize = "0.3"
clap = "2"
hyper = "0.10"
log = "0.3"
simplelog = "0.4"
kernel32-sys = "0.2"
winapi = "0.2"
