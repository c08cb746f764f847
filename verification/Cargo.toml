[package]
name = "chat_relay"
version = "0.1.0"
edition = "2021"
publish = false

[dependencies]
clap = { version = "4", features = ["derive"] }
mio = { version = "1", features = ["os-poll", "net", "os-ext"] }
