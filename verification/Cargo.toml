[package]
name = "grpsqlite"
version = "0.1.0"
edition = "2021"
publish = false

[dependencies]
log = "0.4"
parking_lot = "0.12"
rustyline = "*"
slatedb = "*"
sqlite = "*"
sqlite-plugin = "*"
tokio = { version = "1", features = ["full"] }
tracing = "0.1"
tracing-chrome = "*"
tracing-subscriber = "0.3"
