[package]
name = "subprocess"
version = "0.1.0"
edition = "2021"
publish = false

[dependencies]
libc = "0.2"
nix = { version = "*", features = ["signal", "process"] }
rustix = { version = "1", features = ["process", "event"] }
shared_child = "1"
thiserror = "2"
