[package]
name = "boxed"
version = "0.1.0"
edition = "2021"
publish = false

[dependencies]
anyhow = "1"
caps = "0.5"
clap = { version = "4", features = ["derive"] }
env_logger = "0.11"
libc = "0.2"
log = "0.4"
nix = { version = "0.30", features = ["fs", "sched", "mount", "signal", "process", "hostname", "user"] }
serde = { version = "1", features = ["derive"] }
serde_json = "1"
