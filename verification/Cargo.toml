[package]
name = "zsh-tool-exec"
version = "0.1.0"
edition = "2021"
publish = false

[dependencies]
regex = "1"
sha2 = "0.10"
uuid = { version = "1", features = ["v4"] }
chrono = "0.4"
rusqlite = "0.32"
serde = { version = "1", features = ["derive"] }
serde_json = "1"
libc = "0.2"
nix = { version = "0.29", features = ["process", "signal", "term"] }
