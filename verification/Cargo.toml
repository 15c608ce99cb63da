[package]
name = "nemclass"
version = "0.1.0"
edition = "2021"
publish = false

[dependencies]
iced-x86 = "1"
serde = { version = "1", features = ["derive"] }
serde_json = "1"
ron = "0.8"
toml = "0.8"
libc = "0.2"
nix = { version = "0.29", features = ["ptrace", "uio", "signal", "process"] }
libloading = "0.8"
thiserror = "1"
parking_lot = "0.12"
rayon = "1"
mlua = { version = "0.10", features = ["lua54", "vendored"] }
