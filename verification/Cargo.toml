[package]
name = "qeminga"
version = "0.1.0"
edition = "2021"
publish = false

[dependencies]
governor = "0.10"
nix = { version = "0.30", features = ["feature", "fs", "ioctl", "net", "reboot", "resource", "signal", "socket", "term", "user"] }
serde = { version = "1", features = ["derive"] }
serde_json = "1"
sha2 = "0.10"
thiserror = "2"
tokio = { version = "1", features = ["fs", "io-util", "macros", "net", "rt", "rt-multi-thread", "signal", "sync", "time"] }
toml = "0.8"
tracing = "0.1"
tracing-subscriber = { version = "0.3", features = ["json"] }
