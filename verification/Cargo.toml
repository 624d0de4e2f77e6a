[package]
name = "retach"
version = "0.1.0"
edition = "2021"
publish = false

[dependencies]
anyhow = "1"
bincode = "1"
clap = { version = "4", features = ["derive"] }
nix = { version = "0.29", features = ["fs", "process", "signal", "term", "user"] }
portable-pty = "0.8"
serde = { version = "1", features = ["derive"] }
terminal_size = "0.4"
thiserror = "2"
tokio = { version = "1", features = ["full"] }
tracing = "0.1"
tracing-subscriber = { version = "0.3", features = ["env-filter"] }
unicode-width = "0.2"
vte = "0.13"
