[package]
name = "ewor_brainfuck"
version = "0.1.0"
edition = "2021"
publish = false

[dependencies]
anyhow = "1"
libc = "0.2"
nix = { version = "0.29", features = ["socket", "net"] }
syscalls = "0.6"
thiserror = "1"
