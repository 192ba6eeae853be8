[package]
name = "command_server"
version = "0.1.0"
edition = "2021"
publish = false

[dependencies]
chrono = "*"
clap = { version = "*", features = ["derive"] }
ftail = "*"
log = "*"
serde = { version = "*", features = ["derive"] }
serde_json = "*"
tokio = { version = "*", features = ["macros", "net", "io-util", "rt-multi-thread", "signal"] }
uuid = { version = "*", features = ["v4"] }
