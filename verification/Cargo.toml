[package]
name = "libmount"
version = "0.1.0"
edition = "2021"
publish = false

[dependencies]
libc = "=0.2.190"
nix = { version = "=0.31.3", features = ["mount", "user"] }
thiserror = "=2.0.21"
