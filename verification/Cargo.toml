[package]
name = "femto-gpt"
version = "0.2.0"
edition = "2021"
publish = false

[dependencies]
bincode = "1.3.3"
rand = "0.8.5"
thiserror = "1.0"
