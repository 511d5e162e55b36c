[package]
name = "rpass"
version = "1.2.1"
edition = "2021"
publish = false

[dependencies]
base64 = "*"
clap = { version = "*", features = ["derive"] }
rand = "*"
rand_chacha = "*"
rand_hc = "*"
rustix = { version = "*", features = ["stdio"] }
terminal_size = "*"
zeroize = "*"
