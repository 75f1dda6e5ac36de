[package]
name = "snowglobe"
version = "0.1.0"
edition = "2021"
publish = false

[dependencies]
serde_json = "1"
mio = { version = "1", features = ["net", "os-poll"] }
clap = "4"
