[package]
name = "ifshow"
version = "0.1.0"
edition = "2021"
publish = false

[dependencies]
anyhow = "*"
clap = { version = "*", features = ["derive"] }
colored = "*"
libc = "*"
nix = { version = "*", features = ["ioctl", "socket", "net"] }
once_cell = "*"
pci-info = "*"
serde = { version = "*", features = ["derive"] }
serde_json = "*"
