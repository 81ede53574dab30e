[package]
name = "trsh"
version = "0.1.0"
edition = "2021"
publish = false

[dependencies]
salsa20 = "=0.11.0"
block-buffer = "=0.12.1"
rand = "=0.8.8"
clap = "=2.34.0"
daemonize = "=0.5.0"
libc = "=0.2.190"
nix = { version = "=0.31.3", features = ["term"] }
terminal_size = "=0.4.4"
termios = "=0.3.3"
