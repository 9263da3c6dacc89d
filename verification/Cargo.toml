[package]
name = "ipguard"
version = "0.1.0"
edition = "2021"
publish = false

[dependencies]
tokio = { version = "1", features = ["rt", "macros", "net", "io-util", "sync"] }
clap = "2"
redbpf = { version = "*", features = ["load"] }
redbpf-probes = "*"
