[package]
name = "handshake"
version = "0.1.0"
edition = "2021"
publish = false

[dependencies]
etherparse = "0.13"
tidy-tuntap = "*"
nix = "0.26"
thiserror = "1"
