[package]
name = "tcap"
version = "0.1.0"
edition = "2021"
publish = false

[dependencies]
cidr = "0.2"
rand = "0.8"
tokio = { version = "1", features = ["rt-multi-thread", "net", "sync", "macros", "time"] }
clap = { version = "4", features = ["derive"] }
log = "0.4"
simple_logger = "4"
