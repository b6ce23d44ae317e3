[package]
name = "sysfetch"
version = "0.1.0"
edition = "2021"
publish = false

[dependencies]
memchr = "*"
rustc-hash = "*"
libc = "*"
memmap2 = "*"
smallvec = "*"

[dependencies.nix]
version = "*"
features = ["feature"]
