[package]
name = "marionette"
version = "0.1.0"
edition = "2021"
publish = false

[dependencies]
atoi = "2"
libc = "0.2"
log = "0.4"
nix = "0.26"
rand = "0.8"
regex = "1"
signal-hook = "0.3"
simple_logger = "4"
