[package]
name = "deet"
version = "0.1.0"
edition = "2021"
publish = false

[dependencies]
nix = { version = "=0.31.3", features = ["ptrace", "signal", "process"] }
libc = "=0.2.191"
rand = "=0.10.3"
rustyline = "=19.0.0"
gimli = "*"
object = "*"
