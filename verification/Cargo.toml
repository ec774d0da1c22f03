[package]
name = "hooch"
version = "0.1.0"
edition = "2021"
publish = false

[dependencies]
mio = { version = "1", features = ["os-poll", "os-ext", "net"] }
nix = { version = "0.29", features = ["time"] }
