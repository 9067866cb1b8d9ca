[package]
name = "llamac"
version = "0.1.0"
edition = "2021"
publish = false

[dependencies]
clap = { version = "4", features = ["derive"] }
colored = "2"
env_logger = "0.10"
log = "0.4"
ptree = { version = "0.4", default-features = false, features = ["ansi"] }
thiserror = "1"
strum = { version = "0.25", features = ["derive"] }
enum_dispatch = "0.3"
