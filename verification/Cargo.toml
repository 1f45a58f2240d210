[package]
name = "dns_proxy"
version = "0.1.0"
edition = "2021"
publish = false

[dependencies]
termcolor = "=1.4.1"
tokio = { version = "=1.54.1", features = ["rt-multi-thread", "macros", "net", "io-util", "sync", "time"] }
ttycolor = "=0.1.3"
