[package]
name = "bytebeat"
version = "0.1.0"
edition = "2021"
publish = false

[dependencies]
rand = "=0.4.6"
dotenv = "=0.13.0"
egg-mode = "=0.13.0"
tokio-core = "0.1"
