[package]
name = "toytorrent"
version = "0.1.0"
edition = "2021"
publish = false

[dependencies]
sha1 = "0.10"
rand = "0.8"
clap = { version = "4", features = ["derive"] }
tokio = { version = "1", features = ["net", "io-util", "sync", "rt", "time"] }
reqwest = { version = "0.11", default-features = false }
tide = { version = "0.16", default-features = false, features = ["h1-server"] }
async-std = { version = "1", features = ["attributes"] }
