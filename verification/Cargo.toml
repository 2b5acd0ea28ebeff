[package]
name = "tome"
version = "0.1.0"
edition = "2021"
publish = false

[dependencies]
notify = "*"
notify-debouncer-mini = "*"
portable-pty = "*"
regex = "1"
reqwest = { version = "0.12", default-features = false }
serde = { version = "1", features = ["derive"] }
serde_json = "1"
tokio = { version = "1", features = ["rt", "rt-multi-thread", "macros", "process", "sync", "time", "io-util", "fs"] }
