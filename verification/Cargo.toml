[package]
name = "soft_supervisor"
version = "0.1.0"
edition = "2021"
publish = false

[dependencies]
regex = "1"
chrono = "0.4"
libc = "0.2"
nonblock = "*"
is_executable = "*"
serde = { version = "1", features = ["derive"] }
serde_yaml = "*"
clap = { version = "*", features = ["derive"] }
signal-hook = "*"
