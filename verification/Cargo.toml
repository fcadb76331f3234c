[package]
name = "tetris_core"
version = "0.1.0"
edition = "2021"
publish = false

[dependencies]
rand = "0.8"
tokio = { version = "1", features = ["macros", "rt-multi-thread", "io-std", "io-util"] }
futures = "0.3"
async-stream = "0.3"
futures-timer = "3"
