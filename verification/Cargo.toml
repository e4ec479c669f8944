[package]
name = "bromlink"
version = "0.1.0"
edition = "2021"
publish = false

[dependencies]
futures = "*"
thiserror = "*"
tokio = { version = "*", default-features = false, features = ["io-util"] }
