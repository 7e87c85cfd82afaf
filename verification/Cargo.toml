[package]
name = "vaserve"
version = "0.1.0"
edition = "2021"
publish = false

[dependencies]
sha1 = "0.10"
mime_guess = "2"
bytesize = "1"
serde = { version = "1", features = ["derive"] }
serde_json = "1"
clap = { version = "4", features = ["derive"] }
axum = "0.7"
tokio = { version = "1", features = ["rt-multi-thread", "macros", "net", "fs", "sync", "io-util", "time"] }
bytes = "1"
local-ip-address = "0.6"
arboard = { version = "3", default-features = false }
